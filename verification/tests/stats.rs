use std::time::Duration;

use pwned_passwords_downloader_rs::download::{DownloadError, StatusCode};
use pwned_passwords_downloader_rs::stats::{RunStats, SummaryFigures};
use pwned_passwords_downloader_rs::writer::WriteError;

fn figures() -> SummaryFigures {
    SummaryFigures {
        elapsed: "1.50".to_string(),
        progress: "10.00".to_string(),
        rate: "0.7".to_string(),
        avg_ms: "1500.000".to_string(),
    }
}

fn server_error(hash: &str, retries: usize) -> DownloadError {
    DownloadError::Http {
        hash: hash.to_string(),
        status_code: StatusCode::from_u16(500).unwrap(),
        retries,
    }
}

#[test]
fn snapshot_counts_success_paths() {
    let mut stats = RunStats::new(42);
    stats.record_downloaded();
    stats.record_downloaded();
    stats.record_not_modified();
    stats.record_cancelled();
    stats.record_retries(0);
    stats.record_retries(2);

    let snapshot = stats.snapshot(true);
    assert_eq!(snapshot.total_targets, 42);
    assert_eq!(snapshot.processed, 4);
    assert_eq!(snapshot.downloaded_or_updated, 2);
    assert_eq!(snapshot.total_retries, 2);
    assert_eq!(snapshot.retried_requests, 1);
    assert!(snapshot.avg_end_to_end_per_processed.is_some());
    let (elapsed, processed) = snapshot.avg_end_to_end_per_processed.unwrap();
    assert!((elapsed.as_secs_f64() / processed as f64).is_sign_positive());
    assert_eq!(snapshot.not_modified, 1);
    assert_eq!(snapshot.cancelled, 1);
    assert_eq!(snapshot.errors_total, 0);
    let (processed, elapsed) = snapshot.throughput;
    assert!((processed as f64 / elapsed.as_secs_f64().max(f64::EPSILON)).is_finite());
    assert!(snapshot.was_cancelled);
}

#[test]
fn snapshot_counts_error_categories() {
    let mut stats = RunStats::new(4);
    stats.record_error(&DownloadError::Client {
        hash: "AAAAA".to_string(),
        status_code: StatusCode::from_u16(400).unwrap(),
        retries: 0,
    });
    stats.record_error(&server_error("BBBBB", 3));
    stats.record_error(&DownloadError::Network {
        hash: "CCCCC".to_string(),
        error: "connection reset".to_string(),
        retries: 3,
    });
    stats.record_error(&DownloadError::FileOperation {
        retries: 0,
        source: WriteError::ReadWrite {
            path: "out/DDDDD".to_string(),
            source: "disk full".to_string(),
        },
    });
    stats.record_retries(4);
    stats.record_retries(1);

    let snapshot = stats.snapshot(false);
    assert_eq!(snapshot.processed, 4);
    assert_eq!(snapshot.error_client, 1);
    assert_eq!(snapshot.total_retries, 5);
    assert_eq!(snapshot.error_http, 1);
    assert_eq!(snapshot.error_network, 1);
    assert_eq!(snapshot.error_file, 1);
    assert!(snapshot.avg_end_to_end_per_processed.is_some());
    assert_eq!(snapshot.errors_total, 4);
    assert!(!snapshot.was_cancelled);
}

#[test]
fn snapshot_reports_no_average_when_nothing_processed() {
    let stats = RunStats::new(10);
    let snapshot = stats.snapshot(false);

    assert_eq!(snapshot.processed, 0);
    assert_eq!(snapshot.avg_end_to_end_per_processed, None);
    let (processed, elapsed) = snapshot.throughput;
    assert_eq!(
        processed as f64 / elapsed.as_secs_f64().max(f64::EPSILON),
        0.0
    );
}

#[test]
fn summary_line_omits_subcategories_when_totals_are_zero() {
    let mut stats = RunStats::new(10);
    stats.record_downloaded();
    let snapshot = stats.snapshot(false);

    let line = RunStats::summary_line(&snapshot, &figures());
    assert!(line.contains("retries=0"));
    assert!(line.contains("errors=0"));
    assert!(!line.contains("(requests="));
    assert!(!line.contains("(client="));
}

#[test]
fn summary_line_includes_subcategories_when_totals_are_non_zero() {
    let mut stats = RunStats::new(10);
    stats.record_downloaded();
    stats.record_retries(2);
    stats.record_error(&server_error("AAAAA", 1));
    let snapshot = stats.snapshot(true);

    let line = RunStats::summary_line(&snapshot, &figures());
    assert!(line.contains("status=cancelled"));
    assert!(line.contains("retries=2 (requests=1)"));
    assert!(line.contains("errors=1 (client=0 http=1 network=0 file=0)"));
}

#[test]
fn summary_line_is_exact() {
    let mut stats = RunStats::new(10);
    stats.record_downloaded();
    stats.record_not_modified();
    stats.record_error(&DownloadError::Cancelled {
        hash: "AAAAA".to_string(),
    });
    stats.record_error(&server_error("BBBBB", 1));
    stats.record_retries(1);
    let snapshot = stats.snapshot_at(Duration::from_millis(1500), false);
    assert_eq!(snapshot.elapsed, Duration::from_millis(1500));
    assert_eq!(snapshot.throughput, (4, Duration::from_millis(1500)));
    assert_eq!(
        RunStats::summary_line(&snapshot, &figures()),
        "Run stats status=ok elapsed=1.50s targets=10 processed=4 progress_pct=10.00 \
         rate_hps=0.7 avg=1500.000ms updated=1 unchanged=1 cancelled=1 \
         retries=1 (requests=1) errors=1 (client=0 http=1 network=0 file=0)"
    );
}

#[test]
fn time_goes_by() {
    let mut stats = RunStats::new(1);
    let mut elapsed = stats.snapshot(false).elapsed;
    for _ in 0..1000 {
        let later = stats.snapshot(false).elapsed;
        assert!(later >= elapsed);
        stats.record_downloaded();
        stats.record_not_modified();
        stats.record_cancelled();
        stats.record_retries(1);
        stats.record_error(&server_error("00000", 0));
        elapsed = later;
    }
}

#[test]
fn outcomes_add_up() {
    let mut stats = RunStats::new(100);
    for i in 0..100u64 {
        match i % 4 {
            0 => stats.record_downloaded(),
            1 => stats.record_not_modified(),
            2 => stats.record_cancelled(),
            _ => stats.record_error(&server_error("00000", 0)),
        }
        stats.record_retries(i);
        let s = stats.snapshot(false);
        assert_eq!(s.processed, i + 1);
        assert!(s.retried_requests <= s.total_retries);
        assert_eq!(s.retried_requests == 0, s.total_retries == 0);
        assert_eq!(
            s.processed,
            s.downloaded_or_updated + s.not_modified + s.cancelled + s.errors_total
        );
    }
    assert_eq!(stats.snapshot(false).retried_requests, 99);
}

#[test]
fn counters_start_again_when_full() {
    let mut stats = RunStats::new(1);
    stats.record_retries(u64::MAX);
    stats.record_retries(3);
    assert_eq!(stats.snapshot(false).total_retries, 2);
    assert_eq!(stats.snapshot(false).retried_requests, 2);
}
