use pwned_passwords_downloader_rs::text::{decimal_text, hex_text, parse_usize};

#[test]
fn numbers_in_decimal() {
    for n in [0, 1, 9, 10, 11, 99, 100, 1048576, u64::MAX] {
        assert_eq!(decimal_text(n), n.to_string());
    }
}

#[test]
fn numbers_in_hexadecimal() {
    for n in [0, 1, 9, 10, 15, 16, 0xABCDE, 0xFFFFF, 0x100000, u64::MAX] {
        assert_eq!(hex_text(n, 5), format!("{n:05X}"));
        assert_eq!(hex_text(n, 6), format!("{n:06X}"));
        assert_eq!(hex_text(n, 0), format!("{n:X}"));
    }
}

#[test]
fn numbers_are_read_back() {
    assert_eq!(parse_usize("0"), Some(0));
    assert_eq!(parse_usize("+42"), Some(42));
    assert_eq!(parse_usize("-42"), None);
    assert_eq!(parse_usize(&usize::MAX.to_string()), Some(usize::MAX));
    assert_eq!(parse_usize(&format!("{}0", usize::MAX)), None);
    for n in [0, 7, 123456, usize::MAX] {
        assert_eq!(parse_usize(&decimal_text(n as u64)), Some(n));
    }
}
