use std::path::PathBuf;

use pwned_passwords_downloader_rs::args::{create_test_args, CompressionFormat, HashMode};
use pwned_passwords_downloader_rs::etag::ETagCache;
use pwned_passwords_downloader_rs::individual_writer::{
    FileAction, FileStage, FileWrite, IndividualFileWriter,
};
use pwned_passwords_downloader_rs::string_map::StringMap;

fn cache_with(hash: &str, etag: &str) -> ETagCache {
    let mut etags = StringMap::new();
    etags.insert(hash.to_string(), etag.to_string());
    ETagCache {
        etags,
        mode: HashMode::Sha1,
        path: PathBuf::from("out/.etag_cache.json"),
    }
}

/// Writes a file whose steps have these results; returns the message of the
/// error, if there is one, and the steps that were taken.
fn write(results: &[Result<(), &str>]) -> (Option<String>, Vec<FileStage>) {
    let mut file = FileWrite::start(&PathBuf::from("out/A"));
    let mut stages = vec![FileStage::CreatePart];
    for result in results {
        match file.advance(result.map_err(String::from)) {
            FileAction::Perform(stage) => stages.push(stage),
            FileAction::Finish(outcome) => {
                return (outcome.err().map(|e| e.message().to_string()), stages);
            }
        }
    }
    panic!("The writing did not end");
}

#[test]
fn each_range_has_its_file() {
    let mut args = create_test_args(PathBuf::from("out"));
    let plain = IndividualFileWriter::new(args.clone());
    assert_eq!(plain.range_path("0000A"), PathBuf::from("out/0000A"));
    args.compression = CompressionFormat::Brotli;
    let brotli = IndividualFileWriter::new(args);
    assert_eq!(brotli.range_path("0000A"), PathBuf::from("out/0000A.br"));
}

#[test]
fn steps_lead_to_the_file() {
    let (error, stages) = write(&[Ok(()), Ok(()), Ok(()), Ok(())]);
    assert_eq!(error, None);
    assert_eq!(
        stages,
        [
            FileStage::CreatePart,
            FileStage::WriteData,
            FileStage::FlushPart,
            FileStage::RenamePart,
        ]
    );
}

#[test]
fn every_failed_step_is_named() {
    let (error, _) = write(&[Err("denied")]);
    assert_eq!(
        error.as_deref(),
        Some("Failed to create file out/A.part: denied")
    );
    let (error, _) = write(&[Ok(()), Err("full")]);
    assert_eq!(
        error.as_deref(),
        Some("Failed to write to file out/A.part: full")
    );
    let (error, stages) = write(&[Ok(()), Ok(()), Err("full")]);
    assert_eq!(
        error.as_deref(),
        Some("Failed to flush file out/A.part: full")
    );
    assert!(!stages.contains(&FileStage::RemovePart));
    for removed in [Ok(()), Err("gone")] {
        let (error, stages) = write(&[Ok(()), Ok(()), Ok(()), Err("busy"), removed]);
        assert_eq!(
            error.as_deref(),
            Some("Failed to rename out/A.part to out/A: busy")
        );
        assert_eq!(stages.last(), Some(&FileStage::RemovePart));
    }
}

#[test]
fn written_ranges_are_noted() {
    let writer = IndividualFileWriter::new(create_test_args(PathBuf::from("out")));
    let mut cache = cache_with("0000A", "old");
    let line = writer.range_written(
        &mut cache,
        10,
        "0000A",
        1234,
        &Some("new".to_string()),
        &PathBuf::from("out/0000A"),
    );
    assert_eq!(
        line,
        "seq=00000A range=0000A bytes=1234 etag=new file=out/0000A\n"
    );
    assert_eq!(cache.etags.get("0000A").map(String::as_str), Some("new"));

    let line = writer.range_written(&mut cache, 0x100000, "0000A", 0, &None, &PathBuf::from("f"));
    assert_eq!(line, "seq=100000 range=0000A bytes=0 etag=none file=f\n");
    assert_eq!(cache.etags.get("0000A").map(String::as_str), Some("new"));
}

#[test]
fn failed_ranges_are_forgotten() {
    let writer = IndividualFileWriter::new(create_test_args(PathBuf::from("out")));
    let mut cache = cache_with("0000A", "old");
    let error = writer.range_failed(&mut cache, "0000A", "Failed to flush file x: full");
    assert_eq!(
        error.message(),
        "Failed to write file: Failed to flush file x: full"
    );
    assert!(cache.etags.is_empty());
}
