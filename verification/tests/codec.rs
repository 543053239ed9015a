use identity_core::base64::{decode_base64, push_base64};
use identity_core::decimal::{parse_decimal, push_decimal};
use identity_core::fields::split_fields;

fn base64_of(bytes: &[u8]) -> String {
    let mut out = Vec::new();
    push_base64(&mut out, bytes);
    String::from_utf8(out).unwrap()
}

fn decimal_of(n: u32) -> String {
    let mut out = Vec::new();
    push_decimal(&mut out, n);
    String::from_utf8(out).unwrap()
}

#[test]
fn base64_of_the_standard_vectors() {
    assert_eq!(base64_of(b""), "");
    assert_eq!(base64_of(b"f"), "Zg");
    assert_eq!(base64_of(b"fo"), "Zm8");
    assert_eq!(base64_of(b"foo"), "Zm9v");
    assert_eq!(base64_of(b"foob"), "Zm9vYg");
    assert_eq!(base64_of(b"fooba"), "Zm9vYmE");
    assert_eq!(base64_of(b"foobar"), "Zm9vYmFy");
    assert_eq!(base64_of(&[0xfb, 0xff, 0xbf]), "+/+/");
    assert_eq!(base64_of(&[0, 0, 0]), "AAAA");
    assert_eq!(base64_of(&[255]), "/w");
}

#[test]
fn base64_is_appended_behind_what_is_there() {
    let mut out = vec![36u8];
    push_base64(&mut out, b"foo");
    assert_eq!(out, b"$Zm9v");
}

#[test]
fn base64_is_read_back() {
    assert_eq!(decode_base64(b""), Some(vec![]));
    assert_eq!(decode_base64(b"Zg"), Some(b"f".to_vec()));
    assert_eq!(decode_base64(b"Zm8"), Some(b"fo".to_vec()));
    assert_eq!(decode_base64(b"Zm9v"), Some(b"foo".to_vec()));
    assert_eq!(decode_base64(b"Zm9vYmFy"), Some(b"foobar".to_vec()));
    assert_eq!(decode_base64(b"+/+/"), Some(vec![0xfb, 0xff, 0xbf]));
}

#[test]
fn base64_round_trip_over_all_lengths() {
    for len in 0..70usize {
        let bytes: Vec<u8> = (0..len).map(|i| (i * 37 + len * 11) as u8).collect();
        let mut text = Vec::new();
        push_base64(&mut text, &bytes);
        assert_eq!(text.len(), (len / 3) * 4 + [0, 2, 3][len % 3]);
        assert_eq!(decode_base64(&text), Some(bytes));
    }
}

#[test]
fn base64_refuses_what_it_does_not_write() {
    assert_eq!(decode_base64(b"Z"), None);
    assert_eq!(decode_base64(b"Zm9vY"), None);
    assert_eq!(decode_base64(b"Zh"), None);
    assert_eq!(decode_base64(b"Zm9"), None);
    assert_eq!(decode_base64(b"Zg=="), None);
    assert_eq!(decode_base64(b"Zm8="), None);
    assert_eq!(decode_base64(b"Zm9-"), None);
    assert_eq!(decode_base64(b"Zm9_"), None);
    assert_eq!(decode_base64(b"Zm 9v"), None);
    assert_eq!(decode_base64(b"Zm9v\n"), None);
    assert_eq!(decode_base64(&[0x5a, 0xc3, 0xa9, 0x5a]), None);
}

#[test]
fn decimal_text_of_numbers() {
    assert_eq!(decimal_of(0), "0");
    assert_eq!(decimal_of(7), "7");
    assert_eq!(decimal_of(10), "10");
    assert_eq!(decimal_of(19), "19");
    assert_eq!(decimal_of(4096), "4096");
    assert_eq!(decimal_of(1000000), "1000000");
    assert_eq!(decimal_of(u32::MAX), "4294967295");
}

#[test]
fn decimal_text_is_read_back() {
    assert_eq!(parse_decimal(b"0"), Some(0));
    assert_eq!(parse_decimal(b"9"), Some(9));
    assert_eq!(parse_decimal(b"10"), Some(10));
    assert_eq!(parse_decimal(b"4096"), Some(4096));
    assert_eq!(parse_decimal(b"4294967295"), Some(u32::MAX));
    for n in [0u32, 1, 9, 10, 99, 100, 65535, 65536, 4294967294] {
        let mut text = Vec::new();
        push_decimal(&mut text, n);
        assert_eq!(parse_decimal(&text), Some(n));
    }
}

#[test]
fn decimal_refuses_what_it_does_not_write() {
    assert_eq!(parse_decimal(b""), None);
    assert_eq!(parse_decimal(b"00"), None);
    assert_eq!(parse_decimal(b"01"), None);
    assert_eq!(parse_decimal(b"+1"), None);
    assert_eq!(parse_decimal(b"-1"), None);
    assert_eq!(parse_decimal(b" 1"), None);
    assert_eq!(parse_decimal(b"1 "), None);
    assert_eq!(parse_decimal(b"1a"), None);
    assert_eq!(parse_decimal(b"0x10"), None);
    assert_eq!(parse_decimal(b"4294967296"), None);
    assert_eq!(parse_decimal(b"4294967300"), None);
    assert_eq!(parse_decimal(b"42949672950"), None);
    assert_eq!(parse_decimal(b"99999999999999999999"), None);
}

#[test]
fn text_is_cut_at_each_separator() {
    let cut = |s: &[u8]| split_fields(s, b',');
    assert_eq!(cut(b""), vec![b"".to_vec()]);
    assert_eq!(cut(b"abc"), vec![b"abc".to_vec()]);
    assert_eq!(cut(b","), vec![b"".to_vec(), b"".to_vec()]);
    assert_eq!(cut(b"a,b"), vec![b"a".to_vec(), b"b".to_vec()]);
    assert_eq!(cut(b",a,,b,"), vec![b"".to_vec(), b"a".to_vec(), b"".to_vec(), b"b".to_vec(), b"".to_vec()]);
    assert_eq!(
        split_fields(b"$argon2i$v=19", b'$'),
        vec![b"".to_vec(), b"argon2i".to_vec(), b"v=19".to_vec()]
    );
}
