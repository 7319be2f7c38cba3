use std::path::PathBuf;
use std::time::Duration;

use pwned_passwords_downloader_rs::args::{
    client_options, create_test_args, parse_duration_seconds, parse_greater_than_zero, ArgsError,
    CompressionFormat, ErrorKind, HashMode,
};

#[test]
fn parse_greater_than_zero_valid() {
    assert_eq!(parse_greater_than_zero("1").unwrap(), 1);
    assert_eq!(parse_greater_than_zero("5").unwrap(), 5);
    assert_eq!(parse_greater_than_zero("100").unwrap(), 100);
    assert_eq!(parse_greater_than_zero("999999").unwrap(), 999_999);
}

#[test]
fn parse_greater_than_zero_invalid_zero() {
    let result = parse_greater_than_zero("0");
    assert!(result.is_err());
    let error = result.unwrap_err();
    assert_eq!(error.kind(), ErrorKind::InvalidValue);
    assert!(error.message().contains("Value must be greater than 0"));
}

#[test]
fn parse_greater_than_zero_invalid_non_numeric() {
    let result = parse_greater_than_zero("abc");
    assert!(result.is_err());
    let error = result.unwrap_err();
    assert_eq!(error.kind(), ErrorKind::InvalidValue);
    assert!(error.message().contains("`abc` isn't a valid integer"));
}

#[test]
fn parse_greater_than_zero_invalid_negative() {
    let result = parse_greater_than_zero("-1");
    assert!(result.is_err());
    let error = result.unwrap_err();
    assert_eq!(error.kind(), ErrorKind::InvalidValue);
    assert!(error.message().contains("`-1` isn't a valid integer"));
}

#[test]
fn parse_greater_than_zero_invalid_empty() {
    let result = parse_greater_than_zero("");
    assert!(result.is_err());
    let error = result.unwrap_err();
    assert_eq!(error.kind(), ErrorKind::InvalidValue);
    assert!(error.message().contains("`` isn't a valid integer"));
}

#[test]
fn parse_duration_seconds_valid() {
    assert_eq!(parse_duration_seconds("1").unwrap(), Duration::from_secs(1));
    assert_eq!(
        parse_duration_seconds("30").unwrap(),
        Duration::from_secs(30)
    );
}

#[test]
fn parse_duration_seconds_invalid_zero() {
    let result = parse_duration_seconds("0");
    assert!(result.is_err());
    let error = result.unwrap_err();
    assert_eq!(error.kind(), ErrorKind::InvalidValue);
    assert!(error.message().contains("Value must be greater than 0"));
}

#[test]
fn parse_agrees_with_std() {
    let texts = [
        "0", "00", "+7", "007", "++7", "+", "-0", " 1", "1 ", "1_000", "0x10", "\u{0661}",
        "18446744073709551615", "18446744073709551616", "99999999999999999999999", "1e3", "",
    ];
    for text in texts {
        let expected = text.parse::<usize>();
        match parse_greater_than_zero(text) {
            Ok(number) => assert_eq!(expected, Ok(number)),
            Err(error) => {
                if expected == Ok(0) {
                    assert_eq!(error.message(), "Value must be greater than 0");
                } else {
                    assert!(expected.is_err());
                    assert_eq!(error.message(), format!("`{text}` isn't a valid integer"));
                }
            }
        }
    }
}

#[test]
fn formats_and_modes_have_names() {
    assert_eq!(CompressionFormat::Plain.as_str(), "");
    assert_eq!(CompressionFormat::Brotli.as_str(), "br");
    assert_eq!(CompressionFormat::Gzip.as_str(), "gz");
    assert_eq!(HashMode::Ntlm.as_str(), "ntlm");
    assert_eq!(HashMode::Sha1.as_str(), "sha1");
    assert_eq!(HashMode::default(), HashMode::Sha1);
}

#[test]
fn client_follows_compression() {
    let mut args = create_test_args(PathBuf::from("out"));
    let plain = client_options(&args);
    assert_eq!(plain.accept_encoding, "br");
    assert!(plain.decode_responses);
    assert_eq!(plain.timeout, Duration::from_secs(30));
    assert_eq!(plain.user_agent, "test-agent/1.0");

    args.compression = CompressionFormat::Brotli;
    let brotli = client_options(&args);
    assert_eq!(brotli.accept_encoding, "br");
    assert!(!brotli.decode_responses);

    args.compression = CompressionFormat::Gzip;
    let gzip = client_options(&args.clone());
    assert_eq!(gzip.accept_encoding, "gzip");
    assert!(!gzip.decode_responses);
}

#[test]
fn args_errors_have_messages() {
    assert_eq!(
        ArgsError::ClientBuild("no tls".to_string()).message(),
        "Failed to build HTTP client: no tls"
    );
    assert_eq!(
        ArgsError::CreateDirectory("denied".to_string()).message(),
        "Failed to create output directory: denied"
    );
}
