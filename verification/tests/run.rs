use std::path::PathBuf;

use pwned_passwords_downloader_rs::args::{create_test_args, HashMode};
use pwned_passwords_downloader_rs::download::{
    conditional_etag, AttemptEvent, Download, DownloadAction, DownloadError, DownloadStatus,
    FinishedDownload, StatusCode,
};
use pwned_passwords_downloader_rs::etag::{CacheError, ETagCache};
use pwned_passwords_downloader_rs::run::{
    etag_cache_path, range_name, Run, ETAG_CACHE_FILENAME, HASH_MAX, HIBP_BASE_URL,
};
use pwned_passwords_downloader_rs::string_map::StringMap;
use pwned_passwords_downloader_rs::writer::WriteError;

fn downloaded(etag: Option<&str>, retries_used: u64) -> Result<FinishedDownload, DownloadError> {
    Ok(FinishedDownload {
        status: DownloadStatus::Downloaded {
            etag: etag.map(String::from),
        },
        retries_used,
    })
}

#[test]
fn process_hashes_reports_non_cancellation_errors() {
    let mut run = Run::new(1);
    let hash = range_name(0);
    assert_eq!(hash, "00000");
    let mut download = Download::start(hash.clone(), false, 0);
    let event = AttemptEvent::Response {
        status_code: StatusCode::from_u16(500).unwrap(),
        etag: None,
    };
    match download.advance(event) {
        DownloadAction::Finish(result) => {
            let message = run.handle_result(hash, result);
            assert_eq!(
                message.as_deref(),
                Some(
                    "HTTP error 500 Internal Server Error for hash 00000: failed after 0 retries"
                )
            );
        }
        _ => panic!("Expected the download to end"),
    }

    assert!(run.had_errors);
    assert!(run.deltas.updates.is_empty());
    assert!(run.deltas.removals.is_empty());
    assert_eq!(run.stats.snapshot(false).errors_total, 1);
    assert!(run.is_incomplete(false));
}

#[test]
fn results_change_the_cache() {
    let mut etags = StringMap::new();
    for i in 0..8 {
        etags.insert(range_name(i), "old".to_string());
    }
    let mut cache = ETagCache {
        etags,
        mode: HashMode::Sha1,
        path: PathBuf::from(ETAG_CACHE_FILENAME),
    };

    let mut run = Run::new(7);
    let results = vec![
        downloaded(Some("new"), 2),
        downloaded(None, 0),
        Ok(FinishedDownload {
            status: DownloadStatus::NotModified,
            retries_used: 1,
        }),
        Err(DownloadError::Cancelled {
            hash: range_name(3),
        }),
        Err(DownloadError::Network {
            hash: range_name(4),
            error: "reset".to_string(),
            retries: 5,
        }),
        Err(DownloadError::FileOperation {
            retries: 0,
            source: WriteError::Create {
                path: "p".to_string(),
                source: "denied".to_string(),
            },
        }),
        Err(DownloadError::Client {
            hash: range_name(6),
            status_code: StatusCode::from_u16(403).unwrap(),
            retries: 0,
        }),
    ];
    let mut logged = 0;
    for (i, result) in results.into_iter().enumerate() {
        if run.handle_result(range_name(i as u64), result).is_some() {
            logged += 1;
        }
    }
    assert_eq!(logged, 3);
    assert!(run.had_errors);

    let snapshot = run.stats.snapshot(false);
    assert_eq!(snapshot.processed, 7);
    assert_eq!(snapshot.downloaded_or_updated, 2);
    assert_eq!(snapshot.not_modified, 1);
    assert_eq!(snapshot.cancelled, 1);
    assert_eq!(snapshot.errors_total, 3);
    assert_eq!(snapshot.total_retries, 8);
    assert_eq!(snapshot.retried_requests, 3);

    cache.apply_deltas(run.deltas);
    let kept: Vec<Option<&str>> = (0..8)
        .map(|i| cache.etags.get(&range_name(i)).map(String::as_str))
        .collect();
    let old = Some("old");
    assert_eq!(kept, [Some("new"), None, old, old, old, None, old, old]);
}

#[test]
fn next_run_goes_by_what_was_saved() {
    let path = PathBuf::from(ETAG_CACHE_FILENAME);
    let mut cache = ETagCache {
        etags: StringMap::new(),
        mode: HashMode::Ntlm,
        path: path.clone(),
    };
    cache.etags.insert(range_name(1), "stale".to_string());
    let mut run = Run::new(2);
    run.handle_result(range_name(0), downloaded(Some("fresh"), 0));
    run.handle_result(range_name(1), downloaded(None, 0));
    cache.apply_deltas(run.deltas);

    let saved = Ok(cache.document());
    let next = ETagCache::from_document(&path, HashMode::Ntlm, saved).unwrap();
    let mut args = create_test_args(PathBuf::from("out"));
    args.incremental = true;
    let etag = |exists: bool, number: u64| {
        conditional_etag(&args, exists, &next.etags, &range_name(number))
    };
    assert_eq!(etag(true, 0).as_deref(), Some("fresh"));
    assert_eq!(etag(false, 0), None);
    assert_eq!(etag(true, 1), None);

    let saved = Ok(cache.document());
    let other = ETagCache::from_document(&path, HashMode::Sha1, saved);
    assert!(matches!(other, Err(CacheError::ModeMismatch { .. })));
}

#[test]
fn cancelled_runs_are_incomplete() {
    let mut run = Run::new(1);
    let cancelled = Err(DownloadError::Cancelled {
        hash: range_name(0),
    });
    assert_eq!(run.handle_result(range_name(0), cancelled), None);
    assert!(!run.had_errors);
    assert!(!run.is_incomplete(false));
    assert!(run.is_incomplete(true));
}

#[test]
fn range_names_have_five_digits() {
    assert_eq!(range_name(0), "00000");
    assert_eq!(range_name(0xA), "0000A");
    assert_eq!(range_name(0xABCDE), "ABCDE");
    assert_eq!(range_name(HASH_MAX), "FFFFF");
    let mut last = String::new();
    for number in (0..=HASH_MAX).step_by(0x111) {
        let name = range_name(number);
        assert_eq!(name.len(), 5);
        assert!(name > last);
        last = name;
    }
}

#[test]
fn service_and_cache_have_names() {
    assert_eq!(HIBP_BASE_URL, "https://api.pwnedpasswords.com/range/");
    assert_eq!(ETAG_CACHE_FILENAME, ".etag_cache.json");
    assert_eq!(HASH_MAX, 0xFFFFF);
    let args = create_test_args(PathBuf::from("some/dir"));
    assert_eq!(
        etag_cache_path(&args),
        PathBuf::from("some/dir/.etag_cache.json")
    );
}
