//! Writing a response to the file of its range: the names of the files and
//! the steps, each of which may fail.
//!
//! The body goes to a part file first. The part file takes the place of the
//! range's file once the body is complete, and is deleted otherwise.

use std::path::PathBuf;
use vstd::prelude::*;
use vstd::string::*;

use crate::args::Args;
use crate::outside::{
    before_last_dot, file_stem, has_separator, is_file_name, is_plain, is_plain_char, join_path,
    names_file, path_display, path_extended, path_joined, path_parts, path_text, path_with_extension,
    takes_names, with_extension,
};

verus! {

/// What went wrong with a file. Every path and every reason is given as the
/// text that a user sees.
#[derive(Debug)]
pub enum WriteError {
    /// The part file could not be created.
    Create { path: String, source: String },
    /// The part file could not take the place of the range's file.
    Rename { path: String, target: String, source: String },
    /// The body could not be read or written.
    ReadWrite { path: String, source: String },
}

impl WriteError {
    /// Whether the same request may do better.
    pub open spec fn spec_is_retriable(self) -> bool {
        self is ReadWrite
    }

    /// The message that a user sees.
    pub open spec fn spec_message(self) -> Seq<char> {
        match self {
            WriteError::Create { path, source } => "create on "@ + path@ + " failed: "@ + source@,
            WriteError::Rename { path, target, source } => "rename from "@ + path@ + " to "@
                + target@ + " failed: "@ + source@,
            WriteError::ReadWrite { path, source } => "read/write on "@ + path@ + " failed: "@
                + source@,
        }
    }

    /// Whether the same request may do better.
    pub fn is_retriable(&self) -> (retriable: bool)
        ensures
            retriable == self.spec_is_retriable(),
    {
        matches!(self, WriteError::ReadWrite { .. })
    }

    /// The message that a user sees.
    pub fn message(&self) -> (message: String)
        ensures
            message@ == self.spec_message(),
    {
        match self {
            WriteError::Create { path, source } => "create on ".to_owned().concat(
                path.as_str(),
            ).concat(" failed: ").concat(source.as_str()),
            WriteError::Rename { path, target, source } => "rename from ".to_owned().concat(
                path.as_str(),
            ).concat(" to ").concat(target.as_str()).concat(" failed: ").concat(source.as_str()),
            WriteError::ReadWrite { path, source } => "read/write on ".to_owned().concat(
                path.as_str(),
            ).concat(" failed: ").concat(source.as_str()),
        }
    }
}

/// The file of a range in a directory, with an extension.
pub open spec fn range_file(directory: PathBuf, hash: Seq<char>, extension: Seq<char>) -> PathBuf {
    path_extended(path_joined(directory, hash), extension)
}

/// The files of the ranges in one directory.
#[derive(Debug)]
pub struct HashFileWriter {
    output_directory: PathBuf,
    extension: String,
}

impl Clone for HashFileWriter {
    fn clone(&self) -> (copy: Self)
        ensures
            copy == *self,
    {
        HashFileWriter {
            output_directory: self.output_directory.clone(),
            extension: self.extension.clone(),
        }
    }
}

impl HashFileWriter {
    /// The directory of the files.
    pub closed spec fn spec_directory(self) -> PathBuf {
        self.output_directory
    }

    /// The extension of the files; empty for files without one.
    pub closed spec fn spec_extension(self) -> Seq<char> {
        self.extension@
    }

    /// A writer for the files with an extension in a directory.
    pub fn new(output_directory: PathBuf, extension: String) -> (writer: Self)
        ensures
            writer.spec_directory() == output_directory,
            writer.spec_extension() == extension@,
    {
        HashFileWriter { output_directory, extension }
    }

    /// The file of a range: in the directory, named after the range, with the
    /// extension.
    pub fn hash_path(&self, hash: &str) -> (path: PathBuf)
        requires
            !has_separator(self.spec_extension()),
        ensures
            path == range_file(self.spec_directory(), hash@, self.spec_extension()),
            names_file(hash@, self.spec_extension()) && takes_names(
                path_parts(self.spec_directory()),
            ) ==> path_parts(path) == path_parts(self.spec_directory()).push(
                with_extension(hash@, self.spec_extension()),
            ),
    {
        let joined = join_path(&self.output_directory, hash);
        let path = path_with_extension(&joined, self.extension.as_str());
        proof {
            if is_file_name(hash@) && takes_names(path_parts(self.output_directory)) {
                assert(path_parts(joined).drop_last() =~= path_parts(self.output_directory));
            }
        }
        path
    }
}

/// The part file that goes with the file of a range: the same but for the
/// extension.
pub fn part_path(final_path: &PathBuf) -> (path: PathBuf)
    ensures
        path == path_extended(*final_path, "part"@),
        path_parts(*final_path).len() > 0 && names_file(
            path_parts(*final_path).last(),
            "part"@,
        ) ==> path_parts(path) == path_parts(*final_path).drop_last().push(
            with_extension(path_parts(*final_path).last(), "part"@),
        ),
{
    proof {
        reveal_strlit("part");
        assert(!"part"@.contains('/'));
        assert(!"part"@.contains('\\'));
    }
    path_with_extension(final_path, "part")
}

/// A writer for the files of a run with these settings.
pub fn create_test_writer(args: &Args) -> (writer: HashFileWriter)
    ensures
        writer.spec_directory() == args.output_directory,
        writer.spec_extension() == args.compression.spec_str(),
{
    HashFileWriter::new(args.output_directory.clone(), args.compression.as_str().to_owned())
}

/// One step of writing a response.
#[derive(Clone, Copy, Debug, PartialEq, Eq, Structural)]
pub enum WriteStage {
    /// Create the part file.
    CreatePart,
    /// Copy the body to the part file.
    CopyBody,
    /// Complete and close the part file.
    Shutdown,
    /// Remove the file that the range had so far.
    RemoveFinal,
    /// Rename the part file to the range's file.
    RenamePart,
}

/// What came of a step.
#[derive(Debug)]
pub enum StepResult {
    /// The step was done.
    Done,
    /// The step failed because a file was not found.
    NotFound(String),
    /// The step failed for another reason.
    Failed(String),
}

impl StepResult {
    /// Why the step failed.
    pub open spec fn reason(self) -> Seq<char> {
        match self {
            StepResult::Done => Seq::empty(),
            StepResult::NotFound(reason) => reason@,
            StepResult::Failed(reason) => reason@,
        }
    }
}

/// Whether a step with this result lets the writing go on. There need not be
/// an earlier file.
pub open spec fn goes_on(stage: WriteStage, result: StepResult) -> bool {
    result is Done || (stage is RemoveFinal && result is NotFound)
}

/// The step after a step.
pub open spec fn stage_after(stage: WriteStage) -> Option<WriteStage> {
    match stage {
        WriteStage::CreatePart => Some(WriteStage::CopyBody),
        WriteStage::CopyBody => Some(WriteStage::Shutdown),
        WriteStage::Shutdown => Some(WriteStage::RemoveFinal),
        WriteStage::RemoveFinal => Some(WriteStage::RenamePart),
        WriteStage::RenamePart => None,
    }
}

/// Whether `error` says that a step failed for a reason.
pub open spec fn is_stage_error(
    error: WriteError,
    stage: WriteStage,
    part: Seq<char>,
    target: Seq<char>,
    reason: Seq<char>,
) -> bool {
    match stage {
        WriteStage::CreatePart => error matches WriteError::Create { path, source } && path@ == part
            && source@ == reason,
        WriteStage::CopyBody => error matches WriteError::ReadWrite { path, source } && path@
            == target && source@ == reason,
        _ => error matches WriteError::Rename { path, target: to, source } && path@ == part && to@
            == target && source@ == reason,
    }
}

/// What to do next when a response is written.
#[derive(Debug)]
pub enum WriteAction {
    /// Take a step, and report what came of it.
    Perform(WriteStage),
    /// Nothing is left to do, and this came of it.
    Finish(Result<(), WriteError>),
}

/// The writing of one response.
#[derive(Debug)]
pub struct ResponseWrite {
    stage: WriteStage,
    part: String,
    target: String,
    delete_on_drop: bool,
}

impl ResponseWrite {
    /// The step that is under way.
    pub closed spec fn spec_stage(self) -> WriteStage {
        self.stage
    }

    /// The part file, as a text.
    pub closed spec fn spec_part(self) -> Seq<char> {
        self.part@
    }

    /// The file of the range, as a text.
    pub closed spec fn spec_target(self) -> Seq<char> {
        self.target@
    }

    /// Whether the part file has to be deleted if the writing ends here.
    pub closed spec fn spec_delete_on_drop(self) -> bool {
        self.delete_on_drop
    }

    /// Starts to write a response. The first step is to create the part file.
    pub fn start(final_path: &PathBuf) -> (write: Self)
        ensures
            write.spec_stage() == WriteStage::CreatePart,
            write.spec_part() == path_display(path_extended(*final_path, "part"@)),
            write.spec_target() == path_display(*final_path),
            write.spec_delete_on_drop(),
    {
        ResponseWrite {
            stage: WriteStage::CreatePart,
            part: path_text(&part_path(final_path)),
            target: path_text(final_path),
            delete_on_drop: true,
        }
    }

    /// Whether the part file has to be deleted if the writing ends here.
    pub fn delete_on_drop(&self) -> (delete: bool)
        ensures
            delete == self.spec_delete_on_drop(),
    {
        self.delete_on_drop
    }

    /// Takes note of what came of the step that is under way, and says how to
    /// go on. The part file stays only if the last step was done.
    pub fn advance(&mut self, result: StepResult) -> (action: WriteAction)
        ensures
            final(self).spec_part() == old(self).spec_part(),
            final(self).spec_target() == old(self).spec_target(),
            match stage_after(old(self).spec_stage()) {
                Some(next) if goes_on(old(self).spec_stage(), result) => {
                    &&& action == WriteAction::Perform(next)
                    &&& final(self).spec_stage() == next
                    &&& final(self).spec_delete_on_drop() == old(self).spec_delete_on_drop()
                },
                None if goes_on(old(self).spec_stage(), result) => {
                    &&& action == WriteAction::Finish(Ok(()))
                    &&& final(self).spec_stage() == old(self).spec_stage()
                    &&& !final(self).spec_delete_on_drop()
                },
                _ => {
                    &&& action matches WriteAction::Finish(Err(error)) && is_stage_error(
                        error,
                        old(self).spec_stage(),
                        old(self).spec_part(),
                        old(self).spec_target(),
                        result.reason(),
                    )
                    &&& final(self).spec_stage() == old(self).spec_stage()
                    &&& final(self).spec_delete_on_drop() == old(self).spec_delete_on_drop()
                },
            },
    {
        let reason = match result {
            StepResult::Done => None,
            StepResult::NotFound(reason) => match self.stage {
                WriteStage::RemoveFinal => None,
                _ => Some(reason),
            },
            StepResult::Failed(reason) => Some(reason),
        };
        match reason {
            Some(source) => WriteAction::Finish(
                Err(
                    match self.stage {
                        WriteStage::CreatePart => WriteError::Create {
                            path: self.part.clone(),
                            source,
                        },
                        WriteStage::CopyBody => WriteError::ReadWrite {
                            path: self.target.clone(),
                            source,
                        },
                        _ => WriteError::Rename {
                            path: self.part.clone(),
                            target: self.target.clone(),
                            source,
                        },
                    },
                ),
            ),
            None => {
                let next = match self.stage {
                    WriteStage::CreatePart => WriteStage::CopyBody,
                    WriteStage::CopyBody => WriteStage::Shutdown,
                    WriteStage::Shutdown => WriteStage::RemoveFinal,
                    WriteStage::RemoveFinal => WriteStage::RenamePart,
                    WriteStage::RenamePart => {
                        self.delete_on_drop = false;
                        return WriteAction::Finish(Ok(()));
                    },
                };
                self.stage = next;
                WriteAction::Perform(next)
            },
        }
    }
}

/// Only a failure to read or write the body is worth another request.
pub proof fn law_only_body_failures_are_retriable(
    error: WriteError,
    stage: WriteStage,
    part: Seq<char>,
    target: Seq<char>,
    reason: Seq<char>,
)
    requires
        is_stage_error(error, stage, part, target, reason),
    ensures
        error.spec_is_retriable() <==> stage == WriteStage::CopyBody,
{
}

/// Whether the writing of a response, at a step, comes to a good end when its
/// steps have these results.
pub open spec fn completes(stage: WriteStage, results: Seq<StepResult>) -> bool
    decreases results.len(),
{
    &&& results.len() > 0
    &&& goes_on(stage, results[0])
    &&& match stage_after(stage) {
        Some(next) => completes(next, results.drop_first()),
        None => true,
    }
}

/// A response counts as written only after every step was done: the part file
/// created, the body copied, the part file closed, the earlier file gone, and
/// the part file renamed.
pub proof fn law_written_after_every_step(results: Seq<StepResult>)
    ensures
        completes(WriteStage::CreatePart, results) <==> {
            &&& results.len() >= 5
            &&& results[0] is Done
            &&& results[1] is Done
            &&& results[2] is Done
            &&& results[3] is Done || results[3] is NotFound
            &&& results[4] is Done
        },
{
    reveal_with_fuel(completes, 5);
    let (rest1, rest2) = (results.drop_first(), results.drop_first().drop_first());
    let (rest3, rest4) = (rest2.drop_first(), rest2.drop_first().drop_first());
    if results.len() >= 5 {
        assert(rest1[0] == results[1]);
        assert(rest2[0] == results[2]);
        assert(rest3[0] == results[3]);
        assert(rest4[0] == results[4]);
    }
}

proof fn lemma_plain_holds(text: Seq<char>, c: char)
    requires
        is_plain(text),
        text.contains(c),
    ensures
        is_plain_char(c),
{
    let i = choose|i: int| 0 <= i < text.len() && text[i] == c;
    assert(is_plain_char(text[i]));
}

/// Letters and digits make a file name.
pub proof fn lemma_plain_is_file_name(name: Seq<char>)
    requires
        name.len() > 0,
        is_plain(name),
    ensures
        is_file_name(name),
{
    lemma_dotted_is_file_name(name, Seq::empty());
    assert(name + Seq::<char>::empty() =~= name);
}

/// Letters and digits, then letters, digits and dots, make a file name.
proof fn lemma_dotted_is_file_name(name: Seq<char>, rest: Seq<char>)
    requires
        name.len() > 0,
        is_plain(name),
        forall|i: int| 0 <= i < rest.len() ==> is_plain_char(#[trigger] rest[i]) || rest[i] == '.',
    ensures
        is_file_name(name + rest),
{
    let whole = name + rest;
    assert forall|i: int| 0 <= i < whole.len() implies is_plain_char(#[trigger] whole[i])
        || whole[i] == '.' by {
        if i < name.len() {
            assert(is_plain_char(name[i]));
        } else {
            assert(whole[i] == rest[i - name.len()]);
        }
    }
    assert(is_plain_char(name[0]) && whole[0] == name[0]);
}

proof fn lemma_before_last_dot(name: Seq<char>, extension: Seq<char>)
    requires
        is_plain(extension),
    ensures
        before_last_dot(name.push('.') + extension) == name,
    decreases extension.len(),
{
    let whole = name.push('.') + extension;
    if extension.len() == 0 {
        assert(whole.drop_last() =~= name);
    } else {
        assert(is_plain_char(extension.last()));
        assert(whole.last() == extension.last());
        let shorter = extension.drop_last();
        assert forall|i: int| 0 <= i < shorter.len() implies is_plain_char(
            #[trigger] shorter[i],
        ) by {
            assert(is_plain_char(extension[i]));
        }
        lemma_before_last_dot(name, shorter);
        assert(whole.drop_last() =~= name.push('.') + shorter);
    }
}

proof fn lemma_stem_of_extended(name: Seq<char>, extension: Seq<char>)
    requires
        name.len() > 0,
        is_plain(extension),
    ensures
        file_stem(name.push('.') + extension) == name,
{
    let whole = name.push('.') + extension;
    assert(whole.skip(1)[name.len() - 1] == '.');
    lemma_before_last_dot(name, extension);
}

/// The stem of a range's file, whatever its extension.
proof fn lemma_stem_of_range_file(name: Seq<char>, extension: Seq<char>)
    requires
        name.len() > 0,
        is_plain(name),
        is_plain(extension),
    ensures
        file_stem(name) == name,
        file_stem(with_extension(name, extension)) == name,
        is_file_name(with_extension(name, extension)),
{
    if name.skip(1).contains('.') {
        let i = choose|i: int| 0 <= i < name.skip(1).len() && name.skip(1)[i] == '.';
        assert(is_plain_char(name[i + 1]));
    }
    if extension.len() > 0 {
        lemma_stem_of_extended(name, extension);
        let rest = seq!['.'] + extension;
        assert forall|i: int| 0 <= i < rest.len() implies is_plain_char(#[trigger] rest[i])
            || rest[i] == '.' by {
            if i > 0 {
                assert(is_plain_char(extension[i - 1]));
            }
        }
        lemma_dotted_is_file_name(name, rest);
        assert(name.push('.') + extension =~= name + rest);
    } else {
        lemma_plain_is_file_name(name);
    }
}

/// Every range has a file and a part file with proper names. No two ranges
/// share a file or a part file, and no range's part file is the file of a
/// range.
pub proof fn law_ranges_keep_apart(a: Seq<char>, b: Seq<char>, extension: Seq<char>)
    requires
        a.len() > 0,
        b.len() > 0,
        is_plain(a),
        is_plain(b),
        is_plain(extension),
    ensures
        names_file(a, extension),
        names_file(with_extension(a, extension), "part"@),
        with_extension(a, extension) == with_extension(b, extension) ==> a == b,
        with_extension(with_extension(a, extension), "part"@) == with_extension(
            with_extension(b, extension),
            "part"@,
        ) ==> a == b,
        extension != "part"@ ==> with_extension(a, extension) != with_extension(
            with_extension(b, extension),
            "part"@,
        ),
{
    reveal_strlit("part");
    let part = "part"@;
    assert(is_plain(part));
    lemma_plain_is_file_name(a);
    lemma_stem_of_range_file(a, extension);
    lemma_stem_of_range_file(b, extension);
    lemma_stem_of_range_file(a, part);
    lemma_stem_of_range_file(b, part);
    let (file, other) = (with_extension(a, extension), b.push('.') + part);
    if file == other {
        if extension.len() == 0 {
            assert(other[b.len() as int] == '.');
            lemma_plain_holds(a, '.');
        } else {
            assert(file.skip(a.len() as int + 1) =~= extension);
            assert(other.skip(b.len() as int + 1) =~= part);
        }
    }
}

/// The steps that write a response, in order: the part file is created, the body
/// copied and the part file closed, and only then the earlier file removed and the
/// part file renamed. A step that failed stops the writing, but for an earlier
/// file that is not there.
pub proof fn law_steps_of_a_response(stage: WriteStage, result: StepResult)
    ensures
        stage_after(WriteStage::CreatePart) == Some(WriteStage::CopyBody),
        stage_after(WriteStage::CopyBody) == Some(WriteStage::Shutdown),
        stage_after(WriteStage::Shutdown) == Some(WriteStage::RemoveFinal),
        stage_after(WriteStage::RemoveFinal) == Some(WriteStage::RenamePart),
        stage_after(WriteStage::RenamePart) is None,
        result is Done ==> goes_on(stage, result),
        result is Failed ==> !goes_on(stage, result),
        result is NotFound ==> (goes_on(stage, result) <==> stage == WriteStage::RemoveFinal),
        result matches StepResult::NotFound(text) ==> result.reason() == text@,
        result matches StepResult::Failed(text) ==> result.reason() == text@,
{
}

/// What is said of each step that failed: the file that it was about, the reason,
/// and whether another request may do better.
pub proof fn law_step_errors_tell_file_and_reason(
    error: WriteError,
    stage: WriteStage,
    part: Seq<char>,
    target: Seq<char>,
    reason: Seq<char>,
)
    requires
        is_stage_error(error, stage, part, target, reason),
    ensures
        stage == WriteStage::CreatePart ==> error is Create && !error.spec_is_retriable()
            && error.spec_message() == "create on "@ + part + " failed: "@ + reason,
        stage == WriteStage::CopyBody ==> error is ReadWrite && error.spec_is_retriable()
            && error.spec_message() == "read/write on "@ + target + " failed: "@ + reason,
        stage != WriteStage::CreatePart && stage != WriteStage::CopyBody ==> error is Rename
            && !error.spec_is_retriable() && error.spec_message() == "rename from "@ + part
            + " to "@ + target + " failed: "@ + reason,
{
}

/// What a user reads of each error with a file, and which of them another request
/// may mend.
pub proof fn law_file_errors(error: WriteError)
    ensures
        match error {
            WriteError::Create { path, source } => error.spec_message() == "create on "@ + path@
                + " failed: "@ + source@ && !error.spec_is_retriable(),
            WriteError::Rename { path, target, source } => error.spec_message() == "rename from "@
                + path@ + " to "@ + target@ + " failed: "@ + source@ && !error.spec_is_retriable(),
            WriteError::ReadWrite { path, source } => error.spec_message() == "read/write on "@
                + path@ + " failed: "@ + source@ && error.spec_is_retriable(),
        },
{
}

/// How the files of a range are named: as the range, with a dot and the extension
/// behind it if there is one, and the part file with the extension `part` in
/// every case. Both are in the output directory.
pub proof fn law_files_are_named_after_range(
    directory: PathBuf,
    hash: Seq<char>,
    extension: Seq<char>,
)
    requires
        hash.len() > 0,
        is_plain(hash),
        is_plain(extension),
    ensures
        extension.len() == 0 ==> with_extension(hash, extension) == hash,
        extension.len() > 0 ==> with_extension(hash, extension) == hash + seq!['.'] + extension,
        with_extension(with_extension(hash, extension), "part"@) == hash + seq![
            '.',
            'p',
            'a',
            'r',
            't',
        ],
        range_file(directory, hash, extension) == path_extended(
            path_joined(directory, hash),
            extension,
        ),
{
    reveal_strlit("part");
    lemma_stem_of_range_file(hash, extension);
    assert(hash.push('.') + extension =~= hash + seq!['.'] + extension);
    assert(hash.push('.') + "part"@ =~= hash + seq!['.', 'p', 'a', 'r', 't']);
}

}
