//! One file for each range: the file's name, the steps that write it, and what
//! is noted about it.

use std::path::PathBuf;
use vstd::prelude::*;
use vstd::string::*;

use crate::args::Args;
use crate::etag::ETagCache;
use crate::hash_writer::{log_entry, log_entry_text, note_etag, with_etag, RangeError};
use crate::outside::{
    names_file, path_display, path_extended, path_parts, path_text, takes_names, with_extension,
};
use crate::writer::{part_path, range_file, HashFileWriter};

verus! {

/// The files of the ranges of a run.
#[derive(Debug)]
pub struct IndividualFileWriter {
    args: Args,
}

impl IndividualFileWriter {
    /// The settings of the run.
    pub closed spec fn spec_args(self) -> Args {
        self.args
    }

    /// A writer for a run with these settings.
    pub fn new(args: Args) -> (writer: Self)
        ensures
            writer.spec_args() == args,
    {
        IndividualFileWriter { args }
    }

    /// The file of a range: in the output directory, named after the range,
    /// with the extension of the compression.
    pub fn range_path(&self, hash_prefix: &str) -> (path: PathBuf)
        ensures
            path == range_file(
                self.spec_args().output_directory,
                hash_prefix@,
                self.spec_args().compression.spec_str(),
            ),
            names_file(hash_prefix@, self.spec_args().compression.spec_str()) && takes_names(
                path_parts(self.spec_args().output_directory),
            ) ==> path_parts(path) == path_parts(self.spec_args().output_directory).push(
                with_extension(hash_prefix@, self.spec_args().compression.spec_str()),
            ),
    {
        proof {
            reveal_strlit("");
            reveal_strlit("br");
            reveal_strlit("gz");
        }
        let files = HashFileWriter::new(
            self.args.output_directory.clone(),
            self.args.compression.as_str().to_owned(),
        );
        files.hash_path(hash_prefix)
    }

    /// Takes note that a range was written: the cache learns its ETag. Returns
    /// the line to log.
    pub fn range_written(
        &self,
        cache: &mut ETagCache,
        sequence: u64,
        hash_prefix: &str,
        bytes_written: usize,
        etag: &Option<String>,
        file: &PathBuf,
    ) -> (line: String)
        ensures
            final(cache).etags@ == with_etag(old(cache).etags@, hash_prefix@, *etag),
            final(cache).mode == old(cache).mode,
            final(cache).path == old(cache).path,
            line@ == log_entry(sequence as nat, hash_prefix@, bytes_written as nat, *etag)
                + " file="@ + path_display(*file) + "\n"@,
    {
        note_etag(cache, hash_prefix, etag);
        log_entry_text(sequence, hash_prefix, bytes_written as u64, etag).concat(" file=").concat(
            path_text(file).as_str(),
        ).concat("\n")
    }

    /// Takes note that a range could not be written: the cache forgets its
    /// ETag, so that a later run asks for it again.
    pub fn range_failed(&self, cache: &mut ETagCache, hash_prefix: &str, reason: &str) -> (error:
        RangeError)
        ensures
            final(cache).etags@ == old(cache).etags@.remove(hash_prefix@),
            final(cache).mode == old(cache).mode,
            final(cache).path == old(cache).path,
            error.spec_message() == "Failed to write file: "@ + reason@,
    {
        cache.etags.remove(hash_prefix);
        RangeError::new("Failed to write file: ".to_owned().concat(reason))
    }
}

/// One step of writing data to a file.
#[derive(Clone, Copy, Debug, PartialEq, Eq, Structural)]
pub enum FileStage {
    /// Create the part file.
    CreatePart,
    /// Write the data to the part file.
    WriteData,
    /// Flush the part file.
    FlushPart,
    /// Rename the part file to the file.
    RenamePart,
    /// Remove the part file, which could not be renamed.
    RemovePart,
}

/// What to do next when data is written to a file.
#[derive(Debug)]
pub enum FileAction {
    /// Take a step, and report what came of it.
    Perform(FileStage),
    /// Nothing is left to do, and this came of it.
    Finish(Result<(), RangeError>),
}

/// What is said of a step that failed.
pub open spec fn stage_message(
    stage: FileStage,
    part: Seq<char>,
    target: Seq<char>,
    reason: Seq<char>,
) -> Seq<char> {
    match stage {
        FileStage::CreatePart => "Failed to create file "@ + part + ": "@ + reason,
        FileStage::WriteData => "Failed to write to file "@ + part + ": "@ + reason,
        FileStage::FlushPart => "Failed to flush file "@ + part + ": "@ + reason,
        _ => "Failed to rename "@ + part + " to "@ + target + ": "@ + reason,
    }
}

/// What a step leads to.
pub enum FileStep {
    /// Another step.
    Next(FileStage),
    /// The file is written.
    Written,
    /// The file is not written.
    Failed,
}

/// What a step leads to that was done or was not. A part file that could not
/// be renamed is removed first, whatever comes of that.
pub open spec fn file_step_after(stage: FileStage, done: bool) -> FileStep {
    match (stage, done) {
        (FileStage::CreatePart, true) => FileStep::Next(FileStage::WriteData),
        (FileStage::WriteData, true) => FileStep::Next(FileStage::FlushPart),
        (FileStage::FlushPart, true) => FileStep::Next(FileStage::RenamePart),
        (FileStage::RenamePart, true) => FileStep::Written,
        (FileStage::RenamePart, false) => FileStep::Next(FileStage::RemovePart),
        _ => FileStep::Failed,
    }
}

/// The writing of data to one file.
#[derive(Debug)]
pub struct FileWrite {
    stage: FileStage,
    part: String,
    target: String,
    failure: String,
}

impl FileWrite {
    /// The step that is under way.
    pub closed spec fn spec_stage(self) -> FileStage {
        self.stage
    }

    /// The part file, as a text.
    pub closed spec fn spec_part(self) -> Seq<char> {
        self.part@
    }

    /// The file, as a text.
    pub closed spec fn spec_target(self) -> Seq<char> {
        self.target@
    }

    /// What is reported of the step that failed.
    pub closed spec fn spec_failure(self) -> Seq<char> {
        self.failure@
    }

    /// Starts to write data to a file. The first step is to create the part
    /// file.
    pub fn start(final_path: &PathBuf) -> (write: Self)
        ensures
            write.spec_stage() == FileStage::CreatePart,
            write.spec_part() == path_display(path_extended(*final_path, "part"@)),
            write.spec_target() == path_display(*final_path),
            write.spec_failure() == Seq::<char>::empty(),
    {
        FileWrite {
            stage: FileStage::CreatePart,
            part: path_text(&part_path(final_path)),
            target: path_text(final_path),
            failure: String::new(),
        }
    }

    /// Takes note of what came of the step that is under way, and says how to
    /// go on.
    pub fn advance(&mut self, result: Result<(), String>) -> (action: FileAction)
        ensures
            final(self).spec_part() == old(self).spec_part(),
            final(self).spec_target() == old(self).spec_target(),
            final(self).spec_failure() == (match result {
                Err(reason) if old(self).spec_stage() != FileStage::RemovePart => stage_message(
                    old(self).spec_stage(),
                    old(self).spec_part(),
                    old(self).spec_target(),
                    reason@,
                ),
                _ => old(self).spec_failure(),
            }),
            match file_step_after(old(self).spec_stage(), result is Ok) {
                FileStep::Next(stage) => {
                    &&& action == FileAction::Perform(stage)
                    &&& final(self).spec_stage() == stage
                },
                FileStep::Written => {
                    &&& action == FileAction::Finish(Ok(()))
                    &&& final(self).spec_stage() == old(self).spec_stage()
                },
                FileStep::Failed => {
                    &&& action matches FileAction::Finish(Err(error)) && error.spec_message()
                        == final(self).spec_failure()
                    &&& final(self).spec_stage() == old(self).spec_stage()
                },
            },
    {
        match result {
            Ok(()) => {
                let next = match self.stage {
                    FileStage::CreatePart => FileStage::WriteData,
                    FileStage::WriteData => FileStage::FlushPart,
                    FileStage::FlushPart => FileStage::RenamePart,
                    FileStage::RenamePart => {
                        return FileAction::Finish(Ok(()));
                    },
                    FileStage::RemovePart => {
                        return FileAction::Finish(Err(RangeError::new(self.failure.clone())));
                    },
                };
                self.stage = next;
                FileAction::Perform(next)
            },
            Err(reason) => {
                let (opening, joint) = match self.stage {
                    FileStage::CreatePart => ("Failed to create file ", false),
                    FileStage::WriteData => ("Failed to write to file ", false),
                    FileStage::FlushPart => ("Failed to flush file ", false),
                    FileStage::RenamePart => ("Failed to rename ", true),
                    FileStage::RemovePart => {
                        return FileAction::Finish(Err(RangeError::new(self.failure.clone())));
                    },
                };
                let mut message = opening.to_owned().concat(self.part.as_str());
                if joint {
                    message = message.concat(" to ").concat(self.target.as_str());
                }
                self.failure = message.concat(": ").concat(reason.as_str());
                if joint {
                    self.stage = FileStage::RemovePart;
                    FileAction::Perform(FileStage::RemovePart)
                } else {
                    FileAction::Finish(Err(RangeError::new(self.failure.clone())))
                }
            },
        }
    }
}

/// Whether the writing of a file, at a step, comes to a good end when its steps
/// have these results.
pub open spec fn file_completes(stage: FileStage, results: Seq<bool>) -> bool
    decreases results.len(),
{
    &&& results.len() > 0
    &&& match file_step_after(stage, results[0]) {
        FileStep::Next(next) => file_completes(next, results.drop_first()),
        FileStep::Written => true,
        FileStep::Failed => false,
    }
}

/// A file counts as written only after every step was done: the part file
/// created, written, flushed and renamed. The part file is removed if it could
/// not be renamed, and only then; the file is then not written.
pub proof fn law_file_written_after_every_step(results: Seq<bool>, stage: FileStage, done: bool)
    ensures
        file_completes(FileStage::CreatePart, results) <==> {
            &&& results.len() >= 4
            &&& results[0] && results[1] && results[2] && results[3]
        },
        file_step_after(stage, done) == FileStep::Next(FileStage::RemovePart) <==> stage
            == FileStage::RenamePart && !done,
        !file_completes(FileStage::RemovePart, results),
{
    reveal_with_fuel(file_completes, 5);
    let (rest1, rest2) = (results.drop_first(), results.drop_first().drop_first());
    let rest3 = rest2.drop_first();
    if results.len() >= 4 {
        assert(rest1[0] == results[1]);
        assert(rest2[0] == results[2]);
        assert(rest3[0] == results[3]);
    }
}

/// The steps that write a file, in order: the part file is created, written,
/// flushed and renamed. A step that failed ends the writing; if it was the
/// renaming, the part file is removed first, whatever comes of that.
pub proof fn law_steps_of_a_file(stage: FileStage, done: bool)
    ensures
        file_step_after(FileStage::CreatePart, true) == FileStep::Next(FileStage::WriteData),
        file_step_after(FileStage::WriteData, true) == FileStep::Next(FileStage::FlushPart),
        file_step_after(FileStage::FlushPart, true) == FileStep::Next(FileStage::RenamePart),
        file_step_after(FileStage::RenamePart, true) is Written,
        file_step_after(FileStage::CreatePart, false) is Failed,
        file_step_after(FileStage::WriteData, false) is Failed,
        file_step_after(FileStage::FlushPart, false) is Failed,
        file_step_after(FileStage::RenamePart, false) == FileStep::Next(FileStage::RemovePart),
        file_step_after(FileStage::RemovePart, done) is Failed,
        file_step_after(stage, done) is Written ==> stage == FileStage::RenamePart && done,
{
}

/// What is said of each step that failed: what it was to do, the file, and the
/// reason.
pub proof fn law_file_steps_tell_reason(part: Seq<char>, target: Seq<char>, reason: Seq<char>)
    ensures
        stage_message(FileStage::CreatePart, part, target, reason) == "Failed to create file "@
            + part + ": "@ + reason,
        stage_message(FileStage::WriteData, part, target, reason) == "Failed to write to file "@
            + part + ": "@ + reason,
        stage_message(FileStage::FlushPart, part, target, reason) == "Failed to flush file "@ + part
            + ": "@ + reason,
        stage_message(FileStage::RenamePart, part, target, reason) == "Failed to rename "@ + part
            + " to "@ + target + ": "@ + reason,
{
}

}
