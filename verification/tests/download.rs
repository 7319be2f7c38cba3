use std::path::PathBuf;

use pwned_passwords_downloader_rs::args::{create_test_args, Args, CompressionFormat, HashMode};
use pwned_passwords_downloader_rs::download::{
    backoff_delay, conditional_etag, header_etag, jitter, needs_file_check, network_error_text,
    request_plan, AttemptEvent, Download, DownloadAction, DownloadError, DownloadOutcome,
    DownloadStatus, FinishedDownload, StatusCode,
};
use pwned_passwords_downloader_rs::string_map::StringMap;
use pwned_passwords_downloader_rs::writer::{create_test_writer, WriteError};

const BASE_URL: &str = "http://localhost/range/";

fn test_args() -> Args {
    create_test_args(PathBuf::from("out"))
}

fn answer(code: u16, etag: Option<&str>) -> AttemptEvent {
    AttemptEvent::Response {
        status_code: StatusCode::from_u16(code).unwrap(),
        etag: etag.map(|value| value.as_bytes().to_vec()),
    }
}

fn broken_body() -> AttemptEvent {
    AttemptEvent::WriteFailed(WriteError::ReadWrite {
        path: "test-path".to_string(),
        source: "simulated write failure".to_string(),
    })
}

/// Downloads a range from a service that answers like this; all of the events
/// must come up, and no more.
fn download(
    args: &Args,
    hash: &str,
    etag: Option<&str>,
    events: Vec<AttemptEvent>,
) -> Result<FinishedDownload, DownloadError> {
    let mut download = Download::start(hash.to_string(), etag.is_some(), args.max_retries);
    let mut retry = 0;
    let mut events = events.into_iter();
    loop {
        match download.advance(events.next().unwrap()) {
            DownloadAction::WriteBody => {}
            DownloadAction::Retry => {
                let seconds = download.next_attempt();
                let delay = backoff_delay(retry);
                assert!(seconds >= 1 && seconds >= delay / 2 && seconds <= delay);
                retry += 1;
            }
            DownloadAction::Finish(result) => {
                assert!(events.next().is_none());
                return result;
            }
        }
    }
}

#[test]
fn download_hash_success() {
    let args = test_args();
    let plan = request_plan(&args, BASE_URL, "AAAAA", None);
    assert_eq!(plan.url, "http://localhost/range/AAAAA");
    assert_eq!(plan.query, None);
    assert_eq!(plan.if_none_match, None);

    let events = vec![answer(200, Some("\"test-etag\"")), AttemptEvent::BodyWritten];
    let result = download(&args, "AAAAA", None, events);

    assert!(result.is_ok());
    let outcome = result.unwrap().outcome();
    assert_eq!(
        outcome,
        DownloadOutcome {
            etag: Some("\"test-etag\"".to_string()),
            retries_used: 0
        }
    );
    assert_eq!(outcome.clone(), outcome);
    assert_eq!(
        create_test_writer(&args).hash_path("AAAAA"),
        PathBuf::from("out/AAAAA")
    );
}

#[test]
fn download_hash_ntlm_mode() {
    let mut args = test_args();
    args.hash_mode = HashMode::Ntlm;
    let plan = request_plan(&args, BASE_URL, "HHHHH", None);
    assert_eq!(plan.query, Some(("mode", "ntlm")));

    let events = vec![answer(200, None), AttemptEvent::BodyWritten];
    assert!(download(&args, "HHHHH", None, events).is_ok());
}

#[test]
fn download_hash_not_modified() {
    let mut args = test_args();
    args.incremental = true;
    let plan = request_plan(&args, BASE_URL, "BBBBB", Some("\"existing-etag\""));
    assert_eq!(plan.if_none_match.as_deref(), Some("\"existing-etag\""));

    let result = download(
        &args,
        "BBBBB",
        Some("\"existing-etag\""),
        vec![answer(304, None)],
    );

    assert!(result.is_ok());
    let finished = result.unwrap();
    assert!(matches!(finished.status, DownloadStatus::NotModified));
    assert_eq!(
        finished.outcome(),
        DownloadOutcome {
            etag: None,
            retries_used: 0
        }
    );
}

#[test]
fn download_hash_with_ignore_missing_hash_file() {
    let mut args = test_args();
    args.incremental = true;
    args.ignore_missing_hash_file = true;
    let mut cached = StringMap::new();
    cached.insert("GGGGG".to_string(), "\"cached-etag\"".to_string());
    let etag = conditional_etag(&args, false, &cached, "GGGGG");
    assert_eq!(etag.as_deref(), Some("\"cached-etag\""));

    let plan = request_plan(&args, BASE_URL, "GGGGG", etag.as_deref());
    assert_eq!(plan.if_none_match.as_deref(), Some("\"cached-etag\""));

    let result = download(
        &args,
        "GGGGG",
        Some("\"cached-etag\""),
        vec![answer(304, None)],
    );

    assert!(result.is_ok());
    assert_eq!(
        result.unwrap().outcome(),
        DownloadOutcome {
            etag: None,
            retries_used: 0
        }
    );
}

#[test]
fn download_hash_client_error() {
    let result = download(&test_args(), "CCCCC", None, vec![answer(404, None)]);

    assert!(result.is_err());
    let err = result.unwrap_err();
    assert!(matches!(err, DownloadError::Client { .. }));

    if let DownloadError::Client {
        hash,
        status_code,
        retries,
    } = err
    {
        assert_eq!(hash, "CCCCC");
        assert_eq!(status_code.as_u16(), 404);
        assert_eq!(retries, 0);
    }
}

#[test]
fn download_hash_client_error_after_retry_reports_retry_count() {
    let mut args = test_args();
    args.max_retries = 3;
    let events = vec![answer(500, None), answer(404, None)];
    let err = download(&args, "JJJJJ", None, events).unwrap_err();
    assert!(matches!(err, DownloadError::Client { retries: 1, .. }));
}

#[test]
fn download_hash_server_error_with_retry() {
    let mut args = test_args();
    args.max_retries = 5;
    let events = (0..6).map(|_| answer(500, None)).collect();
    let result = download(&args, "DDDDD", None, events);

    assert!(result.is_err());
    let err = result.unwrap_err();
    assert!(matches!(err, DownloadError::Http { .. }));

    if let DownloadError::Http {
        hash,
        status_code,
        retries,
    } = err
    {
        assert_eq!(hash, "DDDDD");
        assert_eq!(status_code.as_u16(), 500);
        assert_eq!(retries, 5);
    }
}

#[test]
fn download_hash_zero_retries_stops_after_first_http_error() {
    let mut args = test_args();
    args.max_retries = 0;
    let err = download(&args, "KKKKK", None, vec![answer(500, None)]).unwrap_err();
    assert!(matches!(err, DownloadError::Http { retries: 0, .. }));
}

#[test]
fn download_hash_zero_retries_stops_after_first_write_error() {
    let mut args = test_args();
    args.max_retries = 0;
    let events = vec![answer(200, None), broken_body()];
    let err = download(&args, "LLLLL", None, events).unwrap_err();
    assert!(matches!(
        err,
        DownloadError::FileOperation { retries: 0, .. }
    ));
}

#[test]
fn download_hash_reports_retry_count_on_eventual_success() {
    let mut args = test_args();
    args.max_retries = 3;
    let events = vec![
        answer(500, None),
        answer(200, Some("\"ok-etag\"")),
        AttemptEvent::BodyWritten,
    ];
    let outcome = download(&args, "IIIII", None, events).unwrap().outcome();

    assert_eq!(outcome.retries_used, 1);
    assert_eq!(outcome.etag, Some("\"ok-etag\"".to_string()));
}

#[test]
fn download_hash_with_compression() {
    let mut args = test_args();
    args.compression = CompressionFormat::Gzip;
    let events = vec![answer(200, Some("\"gzip-etag\"")), AttemptEvent::BodyWritten];
    assert!(download(&args, "EEEEE", None, events).is_ok());
    assert_eq!(
        create_test_writer(&args).hash_path("EEEEE"),
        PathBuf::from("out/EEEEE.gz")
    );
}

#[test]
fn broken_bodies_are_fetched_again() {
    let mut args = test_args();
    args.max_retries = 2;
    let events = vec![
        answer(200, Some("\"first\"")),
        broken_body(),
        AttemptEvent::SendFailed {
            cause: None,
            error: "timeout".to_string(),
        },
        answer(200, Some("\"second\"")),
        AttemptEvent::BodyWritten,
    ];
    let outcome = download(&args, "00000", None, events).unwrap().outcome();
    assert_eq!(outcome.retries_used, 2);
    assert_eq!(outcome.etag.as_deref(), Some("\"second\""));

    let create = AttemptEvent::WriteFailed(WriteError::Create {
        path: "p".to_string(),
        source: "denied".to_string(),
    });
    let err = download(&args, "00000", None, vec![answer(200, None), create]).unwrap_err();
    assert_eq!(
        err.message(),
        "File operation failed after 0 retries: create on p failed: denied"
    );
}

#[test]
fn unexpected_answers_are_retried() {
    let mut args = test_args();
    args.max_retries = 1;
    for code in [100, 201, 206, 301, 304, 399, 429, 500, 503, 599, 999] {
        let events = vec![answer(code, None), answer(code, None)];
        let err = download(&args, "00000", None, events).unwrap_err();
        assert!(matches!(err, DownloadError::Http { retries: 1, .. }));
    }
    for code in [400, 401, 404, 428, 430, 499] {
        let err = download(&args, "00000", None, vec![answer(code, None)]).unwrap_err();
        assert!(matches!(err, DownloadError::Client { retries: 0, .. }));
    }
}

#[test]
fn missing_answers_use_up_the_retries() {
    let mut args = test_args();
    args.max_retries = 1;
    let lost = |cause: Option<&str>| AttemptEvent::SendFailed {
        cause: cause.map(String::from),
        error: "error sending request".to_string(),
    };
    let err = download(&args, "0000A", None, vec![lost(None), lost(Some("dns"))]).unwrap_err();
    assert_eq!(
        err.message(),
        "Network error dns for hash 0000A: failed after 1 retries"
    );
    assert_eq!(err.retries(), Some(1));
    assert_eq!(
        network_error_text(None, "error sending request".to_string()),
        "error sending request"
    );
}

#[test]
fn errors_name_the_status() {
    let err = download(&test_args(), "0000B", None, vec![answer(404, None)]).unwrap_err();
    assert_eq!(
        err.message(),
        "Client error 404 Not Found for hash 0000B after 0 retries: not retrying"
    );
    let mut args = test_args();
    args.max_retries = 0;
    let err = download(&args, "0000C", None, vec![answer(500, None)]).unwrap_err();
    assert_eq!(
        err.message(),
        "HTTP error 500 Internal Server Error for hash 0000C: failed after 0 retries"
    );
    let err = download(&args, "0000D", None, vec![answer(799, None)]).unwrap_err();
    assert_eq!(
        err.message(),
        format!(
            "HTTP error {} for hash 0000D: failed after 0 retries",
            reqwest::StatusCode::from_u16(799).unwrap()
        )
    );
    let cancelled = DownloadError::Cancelled {
        hash: "0000E".to_string(),
    };
    assert_eq!(cancelled.message(), "Downloads for hash 0000E cancelled");
    assert_eq!(cancelled.retries(), None);
}

#[test]
fn status_codes_have_three_digits() {
    for code in [0, 1, 99, 1000, u16::MAX] {
        assert!(StatusCode::from_u16(code).is_none());
    }
    for code in [100, 200, 304, 999] {
        assert_eq!(StatusCode::from_u16(code).unwrap().as_u16(), code);
    }
}

#[test]
fn only_visible_etags_are_taken() {
    let etag = |bytes: &[u8]| header_etag(&Some(bytes.to_vec()));
    assert_eq!(etag(b"\"abc\"").as_deref(), Some("\"abc\""));
    assert_eq!(etag(b"a\tb ~").as_deref(), Some("a\tb ~"));
    assert_eq!(etag(b"").as_deref(), Some(""));
    assert_eq!(etag(b"caf\xC3\xA9"), None);
    assert_eq!(etag(b"a\x7F"), None);
    assert_eq!(etag(b"a\nb"), None);
    assert_eq!(etag(b"a\x00"), None);
    assert_eq!(header_etag(&None), None);
}

#[test]
fn requests_are_conditional_only_with_a_reason() {
    let mut cached = StringMap::new();
    cached.insert("00000".to_string(), "tag".to_string());
    let mut args = test_args();
    for incremental in [false, true] {
        for ignore in [false, true] {
            args.incremental = incremental;
            args.ignore_missing_hash_file = ignore;
            assert_eq!(needs_file_check(&args), incremental && !ignore);
            for exists in [false, true] {
                let expected = incremental && (ignore || exists);
                let etag = conditional_etag(&args, exists, &cached, "00000");
                assert_eq!(etag.is_some(), expected);
                assert_eq!(conditional_etag(&args, exists, &cached, "00001"), None);
            }
        }
    }
}

#[test]
fn results_report_the_number_of_the_last_attempt() {
    for max_retries in 0..6usize {
        for failures in 0..8usize {
            let mut args = test_args();
            args.max_retries = max_retries;
            let mut events: Vec<AttemptEvent> = (0..failures.min(max_retries + 1))
                .map(|_| answer(503, None))
                .collect();
            if failures <= max_retries {
                events.push(answer(200, Some("tag")));
                events.push(AttemptEvent::BodyWritten);
                let outcome = download(&args, "00000", None, events).unwrap().outcome();
                assert_eq!(outcome.retries_used, failures as u64);
                assert_eq!(outcome.etag.as_deref(), Some("tag"));
            } else {
                let err = download(&args, "00000", None, events).unwrap_err();
                assert_eq!(err.retries(), Some(max_retries));
            }
        }
    }
}

#[test]
fn delays_double_up_to_a_minute() {
    let delays: Vec<u64> = (0..9).map(backoff_delay).collect();
    assert_eq!(delays, [1, 2, 4, 8, 16, 32, 60, 60, 60]);
    assert_eq!(backoff_delay(64), 60);
    assert_eq!(backoff_delay(u32::MAX as usize), 60);
    assert_eq!(jitter(0), 1);
    assert_eq!(jitter(1), 1);
    assert_eq!(jitter(2), 2);
    assert_eq!(jitter(60), 60);
}

#[test]
fn chance_picks_different_delays() {
    let mut seen = Vec::new();
    for _ in 0..200 {
        let mut download = Download::start("00000".to_string(), false, 10);
        let mut last = 0;
        for retry in 0..7 {
            assert!(matches!(
                download.advance(answer(500, None)),
                DownloadAction::Retry
            ));
            last = download.next_attempt();
            assert!(last >= backoff_delay(retry) / 2 && last <= backoff_delay(retry));
        }
        if !seen.contains(&last) {
            seen.push(last);
        }
    }
    assert!(seen.len() > 1);
}
