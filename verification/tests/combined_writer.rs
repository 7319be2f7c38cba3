use std::path::PathBuf;

use pwned_passwords_downloader_rs::args::HashMode;
use pwned_passwords_downloader_rs::combined_writer::{
    appends_to_file, combined_output_path, CombinedWriter, Progress, WriterAction, COMBINED_OUTPUT_FILENAME,
};
use pwned_passwords_downloader_rs::etag::ETagCache;
use pwned_passwords_downloader_rs::hash_writer::{debug_log_path, DEBUG_LOG_FILENAME};
use pwned_passwords_downloader_rs::string_map::StringMap;

fn empty_cache() -> ETagCache {
    ETagCache {
        etags: StringMap::new(),
        mode: HashMode::Sha1,
        path: PathBuf::from("out/.etag_cache.json"),
    }
}

/// What a pass over the buffer has written, logged and reported.
#[derive(Debug, Default, PartialEq)]
struct Output {
    file: Vec<u8>,
    log: String,
    flushes: usize,
    reports: Vec<Progress>,
}

/// Writes everything that is due.
fn pass(writer: &mut CombinedWriter, cache: &mut ETagCache, output: &mut Output) {
    let mut action = writer.write_pending_ranges();
    loop {
        match action {
            WriterAction::Write {
                data,
                needs_newline,
            } => {
                output.file.extend_from_slice(&data);
                if needs_newline {
                    output.file.push(b'\n');
                }
                let (line, next) = writer.range_written(cache);
                output.log.push_str(&line);
                action = next;
            }
            WriterAction::Flush => {
                output.flushes += 1;
                let (progress, next) = writer.batch_flushed();
                output.reports.extend(progress);
                action = next;
            }
            WriterAction::Done => return,
        }
    }
}

fn add(writer: &mut CombinedWriter, sequence: u64, data: &[u8], etag: Option<&str>) {
    writer.add_range(
        sequence,
        format!("{sequence:05X}"),
        data.to_vec(),
        etag.map(String::from),
    );
}

#[test]
fn ranges_are_written_in_order() {
    let mut writer = CombinedWriter::new();
    let mut cache = empty_cache();
    let mut output = Output::default();

    add(&mut writer, 2, b"C:3\r\n", Some("c"));
    pass(&mut writer, &mut cache, &mut output);
    assert_eq!(output, Output::default());

    add(&mut writer, 0, b"A:1", Some("a"));
    pass(&mut writer, &mut cache, &mut output);
    assert_eq!(output.file, b"00000A:1\n");
    assert_eq!(writer.total_ranges(), 1);

    add(&mut writer, 1, b"B:2\n\nB:3\n", None);
    pass(&mut writer, &mut cache, &mut output);
    assert_eq!(
        output.file,
        b"00000A:1\n00001B:2\n00001B:3\n00002C:3\n".to_vec()
    );
    assert_eq!(
        output.log,
        "seq=000000 range=00000 bytes=9 etag=a\n\
         seq=000001 range=00001 bytes=18 etag=none\n\
         seq=000002 range=00002 bytes=9 etag=c\n"
    );
    assert_eq!(output.flushes, 2);
    assert!(output.reports.is_empty());
    assert_eq!(writer.total_ranges(), 3);
    assert_eq!(writer.total_bytes(), output.file.len() as u64);
    assert_eq!(cache.etags.get("00000").map(String::as_str), Some("a"));
    assert_eq!(cache.etags.get("00001"), None);
    assert_eq!(cache.etags.get("00002").map(String::as_str), Some("c"));
}

#[test]
fn empty_ranges_give_an_empty_line() {
    let mut writer = CombinedWriter::new();
    let mut cache = empty_cache();
    let mut output = Output::default();
    add(&mut writer, 0, b"", None);
    add(&mut writer, 1, b"x", None);
    pass(&mut writer, &mut cache, &mut output);
    assert_eq!(output.file, b"\n00001x\n");
}

#[test]
fn any_order_gives_the_same_file() {
    let count: u64 = 250;
    let mut expected = Vec::new();
    for i in 0..count {
        expected.extend_from_slice(format!("{i:05X}S{i}:1\n").as_bytes());
    }
    for step in [1, 3, 7, 249] {
        let mut writer = CombinedWriter::new();
        let mut cache = empty_cache();
        let mut output = Output::default();
        for i in 0..count {
            let sequence = (i * step + 11) % count;
            add(&mut writer, sequence, format!("S{sequence}:1").as_bytes(), None);
            pass(&mut writer, &mut cache, &mut output);
        }
        assert_eq!(output.file, expected);
        assert_eq!(writer.total_ranges(), count);
    }
}

#[test]
fn batches_are_bounded_and_progress_is_reported() {
    let mut writer = CombinedWriter::new();
    let mut cache = empty_cache();
    let mut output = Output::default();
    for i in (0..2050).rev() {
        add(&mut writer, i, b"x\n", None);
    }
    pass(&mut writer, &mut cache, &mut output);
    assert_eq!(output.flushes, 21);
    assert_eq!(
        output.reports,
        [
            Progress {
                next_sequence: 1000,
                total_bytes: 7000
            },
            Progress {
                next_sequence: 2000,
                total_bytes: 14000
            },
        ]
    );
}

#[test]
fn failures_are_forgotten_by_the_cache() {
    let mut writer = CombinedWriter::new();
    let mut cache = empty_cache();
    cache.etags.insert("00001".to_string(), "old".to_string());
    cache.etags.insert("00002".to_string(), "kept".to_string());
    add(&mut writer, 0, b"a", Some("a"));
    add(&mut writer, 1, b"b", Some("b"));
    add(&mut writer, 2, b"c", Some("c"));

    assert!(matches!(
        writer.write_pending_ranges(),
        WriterAction::Write { .. }
    ));
    let step = writer.try_range_written(&mut cache);
    assert!(matches!(step, Some((_, WriterAction::Write { .. }))));
    let error = writer.range_failed(&mut cache, "disk full");
    assert_eq!(error.message(), "Failed to write range 00001: disk full");
    assert_eq!(cache.etags.get("00000").map(String::as_str), Some("a"));
    assert_eq!(cache.etags.get("00001"), None);
    assert_eq!(cache.etags.get("00002").map(String::as_str), Some("kept"));
    assert_eq!(writer.total_ranges(), 1);

    assert!(matches!(writer.write_pending_ranges(), WriterAction::Done));
    assert!(writer.try_range_written(&mut cache).is_none());
}

#[test]
fn a_later_range_replaces_a_waiting_one() {
    let mut writer = CombinedWriter::new();
    let mut cache = empty_cache();
    let mut output = Output::default();
    add(&mut writer, 0, b"old", None);
    add(&mut writer, 0, b"new", None);
    pass(&mut writer, &mut cache, &mut output);
    assert_eq!(output.file, b"00000new\n");
}

#[test]
fn the_greatest_number_waits() {
    let mut writer = CombinedWriter::new();
    let mut cache = empty_cache();
    let mut output = Output::default();
    add(&mut writer, u64::MAX, b"last", None);
    add(&mut writer, 0, b"first", None);
    pass(&mut writer, &mut cache, &mut output);
    assert_eq!(output.file, b"00000first\n");
    assert_eq!(writer.total_ranges(), 1);
}

#[test]
fn a_pass_notes_the_etags_of_what_it_writes() {
    let mut writer = CombinedWriter::new();
    let mut cache = empty_cache();
    for hash in ["00000", "00001", "00003", "FFFFF"] {
        cache.etags.insert(hash.to_string(), "old".to_string());
    }
    let mut output = Output::default();
    add(&mut writer, 0, b"a", Some("new"));
    add(&mut writer, 1, b"b", None);
    add(&mut writer, 3, b"d", Some("waits"));
    pass(&mut writer, &mut cache, &mut output);
    let kept: Vec<(&str, &str)> = cache
        .etags
        .entries()
        .iter()
        .map(|(h, e)| (h.as_str(), e.as_str()))
        .collect();
    assert_eq!(
        kept,
        [
            ("00000", "new"),
            ("00001", "old"),
            ("00003", "old"),
            ("FFFFF", "old")
        ]
    );
}

#[test]
fn only_a_resumed_run_appends() {
    assert!(appends_to_file(true, true));
    assert!(!appends_to_file(true, false));
    assert!(!appends_to_file(false, true));
    assert!(!appends_to_file(false, false));
    assert_eq!(COMBINED_OUTPUT_FILENAME, "pwned-passwords-combined.txt");
    assert_eq!(DEBUG_LOG_FILENAME, "download_debug.log");
    let directory = PathBuf::from("out");
    assert_eq!(
        combined_output_path(&directory),
        PathBuf::from("out/pwned-passwords-combined.txt")
    );
    assert_eq!(
        debug_log_path(&directory),
        PathBuf::from("out/download_debug.log")
    );
}
