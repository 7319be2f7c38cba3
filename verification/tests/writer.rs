use std::path::PathBuf;

use pwned_passwords_downloader_rs::args::{create_test_args, CompressionFormat};
use pwned_passwords_downloader_rs::writer::{
    create_test_writer, part_path, HashFileWriter, ResponseWrite, StepResult, WriteAction,
    WriteError, WriteStage,
};

/// Writes a response whose steps have these results; returns the outcome, the
/// steps that were taken, and whether the part file is to be deleted.
fn write(results: Vec<StepResult>) -> (Result<(), WriteError>, Vec<WriteStage>, bool) {
    let mut response = ResponseWrite::start(&PathBuf::from("out/FFFFF"));
    assert!(response.delete_on_drop());
    let mut stages = vec![WriteStage::CreatePart];
    for result in results {
        match response.advance(result) {
            WriteAction::Perform(stage) => stages.push(stage),
            WriteAction::Finish(outcome) => return (outcome, stages, response.delete_on_drop()),
        }
    }
    panic!("The writing did not end");
}

#[test]
fn write_hash_to_file_success() {
    let args = create_test_args(PathBuf::from("out"));
    let writer = create_test_writer(&args);
    assert_eq!(writer.hash_path("FFFFF"), PathBuf::from("out/FFFFF"));

    let (result, stages, delete) = write(vec![
        StepResult::Done,
        StepResult::Done,
        StepResult::Done,
        StepResult::NotFound("no such file".to_string()),
        StepResult::Done,
    ]);
    assert!(result.is_ok());
    assert!(!delete);
    assert_eq!(
        stages,
        [
            WriteStage::CreatePart,
            WriteStage::CopyBody,
            WriteStage::Shutdown,
            WriteStage::RemoveFinal,
            WriteStage::RenamePart,
        ]
    );
}

#[test]
fn files_are_named_after_ranges() {
    let mut args = create_test_args(PathBuf::from("some/dir"));
    args.compression = CompressionFormat::Gzip;
    let gzip = create_test_writer(&args);
    assert_eq!(gzip.hash_path("EEEEE"), PathBuf::from("some/dir/EEEEE.gz"));
    let brotli = HashFileWriter::new(PathBuf::from("/"), "br".to_string());
    assert_eq!(brotli.clone().hash_path("0A1B2"), PathBuf::from("/0A1B2.br"));
    let plain = HashFileWriter::new(PathBuf::from("."), String::new());
    assert_eq!(plain.hash_path("ABCDE.old"), PathBuf::from("./ABCDE"));

    assert_eq!(
        part_path(&gzip.hash_path("EEEEE")),
        PathBuf::from("some/dir/EEEEE.part")
    );
    assert_eq!(
        part_path(&plain.hash_path("EEEEE")),
        PathBuf::from("./EEEEE.part")
    );
}

#[test]
fn other_names_are_treated_alike() {
    let gzip = HashFileWriter::new(PathBuf::from("out"), "gz".to_string());
    let plain = HashFileWriter::new(PathBuf::from("out"), String::new());
    for (name, with, without) in [
        ("a-b_c", "out/a-b_c.gz", "out/a-b_c"),
        ("caf\u{E9} 1", "out/caf\u{E9} 1.gz", "out/caf\u{E9} 1"),
        ("x.y.z", "out/x.y.gz", "out/x.y"),
        ("x.", "out/x.gz", "out/x"),
        (".hidden", "out/.hidden.gz", "out/.hidden"),
        (".hidden.txt", "out/.hidden.gz", "out/.hidden"),
        ("..a.b", "out/..a.gz", "out/..a"),
    ] {
        assert_eq!(gzip.hash_path(name), PathBuf::from(with));
        assert_eq!(plain.hash_path(name), PathBuf::from(without));
    }
    assert_eq!(
        part_path(&PathBuf::from("out/.hidden/")),
        PathBuf::from("out/.hidden.part")
    );
    let tar = HashFileWriter::new(PathBuf::from("out"), "tar.gz".to_string());
    assert_eq!(tar.hash_path("a.b"), PathBuf::from("out/a.tar.gz"));
}

#[test]
fn failed_creation_is_final() {
    let (result, _, delete) = write(vec![StepResult::Failed("denied".to_string())]);
    let error = result.unwrap_err();
    assert!(matches!(error, WriteError::Create { .. }));
    assert!(!error.is_retriable());
    assert!(delete);
    assert_eq!(error.message(), "create on out/FFFFF.part failed: denied");
}

#[test]
fn failed_copy_is_retriable() {
    let (result, _, delete) = write(vec![
        StepResult::Done,
        StepResult::Failed("reset".to_string()),
    ]);
    let error = result.unwrap_err();
    assert!(matches!(error, WriteError::ReadWrite { .. }));
    assert!(error.is_retriable());
    assert!(delete);
    assert_eq!(error.message(), "read/write on out/FFFFF failed: reset");
}

#[test]
fn failures_after_the_copy_are_final() {
    let done = [2, 3, 4];
    for steps in done {
        let mut results: Vec<StepResult> = (0..steps).map(|_| StepResult::Done).collect();
        results.push(StepResult::Failed("busy".to_string()));
        let (result, stages, delete) = write(results);
        let error = result.unwrap_err();
        assert!(matches!(error, WriteError::Rename { .. }));
        assert!(!error.is_retriable());
        assert!(delete);
        assert_eq!(stages.len(), steps + 1);
        assert_eq!(
            error.message(),
            "rename from out/FFFFF.part to out/FFFFF failed: busy"
        );
    }
}

#[test]
fn a_missing_file_matters_only_before_the_rename() {
    for steps in [0, 1, 2, 4] {
        let mut results: Vec<StepResult> = (0..steps).map(|_| StepResult::Done).collect();
        results.push(StepResult::NotFound("gone".to_string()));
        assert!(write(results).0.is_err());
    }
}
