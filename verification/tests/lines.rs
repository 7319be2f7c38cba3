use pwned_passwords_downloader_rs::lines::{
    has_final_newline, prefix_text, prepend_prefix_to_lines,
};

#[test]
fn test_prepend_prefix_to_lines() {
    // Test basic case with multiple lines
    let prefix = "00000";
    let data =
        b"0005AD76BD555C1D6D771DE417A4B87E4B4:10\n000A8DAE4228F821FB418F59826079BF368:4\n";
    let result = prepend_prefix_to_lines(prefix, data);
    let expected = b"000000005AD76BD555C1D6D771DE417A4B87E4B4:10\n00000000A8DAE4228F821FB418F59826079BF368:4\n";
    assert_eq!(result, expected);
}

#[test]
fn test_prepend_prefix_no_trailing_newline() {
    let prefix = "FFFFF";
    // The service returns 35 characters (without the 5-char range prefix)
    let data = b"FFEE791CBAC0F6305CAF0CEE06BBE131160:4";
    let result = prepend_prefix_to_lines(prefix, data);
    // Full hash should be 40 chars: 5 (prefix) + 35 (suffix) = 40
    let expected = b"FFFFFFFEE791CBAC0F6305CAF0CEE06BBE131160:4";
    assert_eq!(result, expected);
    assert_eq!(result.iter().take_while(|&&b| b != b':').count(), 40); // Verify hash is 40 chars
}

#[test]
fn test_prepend_prefix_empty_lines_ignored() {
    let prefix = "00001";
    let data =
        b"0005AD76BD555C1D6D771DE417A4B87E4B4:10\n\n000A8DAE4228F821FB418F59826079BF368:4\n";
    let result = prepend_prefix_to_lines(prefix, data);
    let expected = b"000010005AD76BD555C1D6D771DE417A4B87E4B4:10\n00001000A8DAE4228F821FB418F59826079BF368:4\n";
    assert_eq!(result, expected);
}

#[test]
fn test_prepend_prefix_single_line() {
    let prefix = "ABC12";
    let data = b"34567890123456789012345678901234:999\n";
    let result = prepend_prefix_to_lines(prefix, data);
    let expected = b"ABC1234567890123456789012345678901234:999\n";
    assert_eq!(result, expected);
}

#[test]
fn carriage_returns_before_a_newline_are_dropped() {
    assert_eq!(prepend_prefix_to_lines("P", b"a\r\nb\r\n"), b"Pa\nPb\n");
    assert_eq!(prepend_prefix_to_lines("P", b"a\r\r\n"), b"Pa\r\n");
    assert_eq!(prepend_prefix_to_lines("P", b"a\r\nb\r"), b"Pa\nPb\r");
    assert_eq!(prepend_prefix_to_lines("P", b"\r\n\r\n"), b"");
    assert_eq!(prepend_prefix_to_lines("P", b"\r"), b"P\r");
}

#[test]
fn texts_without_lines_give_nothing() {
    assert_eq!(prepend_prefix_to_lines("P", b""), b"");
    assert_eq!(prepend_prefix_to_lines("P", b"\n"), b"");
    assert_eq!(prepend_prefix_to_lines("P", b"\n\n\n"), b"");
    assert_eq!(prepend_prefix_to_lines("", b"a\n\nb"), b"a\nb");
}

#[test]
fn last_line_keeps_its_end() {
    assert_eq!(prepend_prefix_to_lines("P", b"a\nb"), b"Pa\nPb");
    assert_eq!(prepend_prefix_to_lines("P", b"a\nb\n"), b"Pa\nPb\n");
    assert_eq!(prepend_prefix_to_lines("P", b"a\n\n"), b"Pa\n");
    assert_eq!(prefix_text("P", "a\nb", true), b"Pa\nPb\n");
    assert_eq!(prefix_text("P", "a\nb\n", false), b"Pa\nPb");
}

#[test]
fn invalid_bytes_are_replaced() {
    assert_eq!(
        prepend_prefix_to_lines("P", b"a\xFFb\n"),
        "Pa\u{FFFD}b\n".as_bytes()
    );
    assert_eq!(
        prepend_prefix_to_lines("\u{E9}", "\u{20AC}\n".as_bytes()),
        "\u{E9}\u{20AC}\n".as_bytes()
    );
}

#[test]
fn texts_may_be_prefixed_one_by_one() {
    for first in ["", "a\n", "a\r\n\nb\n", "\n"] {
        for second in ["", "c", "c\r", "\n\nc\n", "\n"] {
            let mut parts = prepend_prefix_to_lines("P", first.as_bytes());
            parts.extend(prepend_prefix_to_lines("P", second.as_bytes()));
            let whole = prepend_prefix_to_lines("P", format!("{first}{second}").as_bytes());
            assert_eq!(whole, parts);
        }
    }
}

#[test]
fn prefixed_lines_stand_between_newlines() {
    let texts = ["a\r\r\nb\r\n", "\r", "a\n\rb\n\n\r\r", "x\r\n\r\ny"];
    for text in texts {
        let expected: Vec<String> = text
            .lines()
            .filter(|line| !line.is_empty())
            .map(|line| format!("P{line}"))
            .collect();
        let result = String::from_utf8(prepend_prefix_to_lines("P", text.as_bytes())).unwrap();
        let pieces: Vec<&str> = result.split_terminator('\n').collect();
        assert_eq!(pieces, expected);
    }
}

#[test]
fn final_newlines_are_found() {
    assert!(has_final_newline(b"a\n"));
    assert!(!has_final_newline(b"a\nb"));
    assert!(!has_final_newline(b""));
}
