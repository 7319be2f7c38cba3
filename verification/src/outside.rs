//! What the library calls in `std` and in other crates where Verus has no
//! specification of its own. Every contract in this file is believed, not
//! proved; the doc comments say what each one claims.

use std::path::PathBuf;
use std::time::{Duration, Instant};
use vstd::prelude::*;
use vstd::utf8::{decode_utf8, valid_utf8};

verus! {

/// `std::path::PathBuf`. Nothing is seen of what is inside.
#[verifier::external_type_specification]
#[verifier::external_body]
pub struct ExPathBuf(std::path::PathBuf);

/// `std::time::Instant`. Nothing is seen of what is inside.
#[verifier::external_type_specification]
#[verifier::external_body]
pub struct ExInstant(std::time::Instant);

/// `rand::random_range` over an inclusive range: some value of the range. The
/// range must not be empty, since an empty one panics. Which value it is rests
/// on chance.
#[verifier::external_body]
pub(crate) fn random_between(low: u64, high: u64) -> (sample: u64)
    requires
        low <= high,
    ensures
        low <= sample <= high,
{
    rand::random_range(low..=high)
}

/// Whether `reqwest::header::HeaderValue::to_str` takes this byte for a
/// visible ASCII character.
pub open spec fn is_visible_ascii(byte: u8) -> bool {
    32 <= byte < 127 || byte == 9
}

/// `reqwest::header::HeaderValue::to_str` on the header value with these
/// bytes: the bytes as characters if all of them are visible ASCII, and
/// nothing otherwise. Bytes that make no header value at all are not all
/// visible ASCII, and give nothing too.
#[verifier::external_body]
pub(crate) fn header_text(value: &[u8]) -> (text: Option<String>)
    ensures
        text is Some <==> (forall|i: int|
            0 <= i < value@.len() ==> is_visible_ascii(#[trigger] value@[i])),
        text matches Some(t) ==> t@ == value@.map_values(|b: u8| b as char),
{
    let header = reqwest::header::HeaderValue::from_bytes(value).ok()?;
    header.to_str().ok().map(String::from)
}

/// The text that `reqwest::StatusCode` displays for a code, such as
/// `404 Not Found`.
pub uninterp spec fn status_display(status_code: u16) -> Seq<char>;

/// The `Display` of the `reqwest::StatusCode` with this number. A status code
/// has three digits; `from_u16` accepts exactly those numbers.
#[verifier::external_body]
pub(crate) fn status_text(status_code: u16) -> (text: String)
    requires
        100 <= status_code <= 999,
    ensures
        text@ == status_display(status_code),
{
    reqwest::StatusCode::from_u16(status_code).unwrap().to_string()
}

/// The text that `String::from_utf8_lossy` makes of a byte sequence.
pub uninterp spec fn utf8_lossy(bytes: Seq<u8>) -> Seq<char>;

/// `String::from_utf8_lossy`. Valid UTF-8 is decoded as it stands; what the
/// replacement of invalid sequences gives is not stated.
#[verifier::external_body]
pub(crate) fn from_utf8_lossy(bytes: &[u8]) -> (text: String)
    ensures
        text@ == utf8_lossy(bytes@),
        valid_utf8(bytes@) ==> text@ == decode_utf8(bytes@),
{
    String::from_utf8_lossy(bytes).into_owned()
}

/// The duration of a number of whole seconds.
pub uninterp spec fn duration_of_secs(secs: u64) -> Duration;

/// `Duration::from_secs`: the duration of that many whole seconds.
pub assume_specification[ std::time::Duration::from_secs ](secs: u64) -> (duration: Duration)
    ensures
        duration == duration_of_secs(secs),
;

/// `Instant::now`. Nothing is stated of the instant: it rests on the clock.
#[verifier::external_body]
pub(crate) fn instant_now() -> Instant {
    Instant::now()
}

/// `Instant::elapsed`. Nothing is stated of the duration: it rests on the
/// clock.
#[verifier::external_body]
pub(crate) fn elapsed_since(start: &Instant) -> Duration {
    start.elapsed()
}

/// `PathBuf::clone`: the same path.
pub assume_specification[ <std::path::PathBuf as Clone>::clone ](path: &PathBuf) -> (copy: PathBuf)
    ensures
        copy == *path,
;

/// The text that `Path::display` shows for a path.
pub uninterp spec fn path_display(path: PathBuf) -> Seq<char>;

/// `Path::display`, as a text. What stands for a part of the path that is not
/// Unicode is not stated.
#[verifier::external_body]
pub(crate) fn path_text(path: &PathBuf) -> (text: String)
    ensures
        text@ == path_display(*path),
{
    path.display().to_string()
}

/// The components of a path, as `Path::components` walks them.
pub uninterp spec fn path_parts(path: PathBuf) -> Seq<Seq<char>>;

/// The path that `Path::join` makes of a directory and a text.
pub uninterp spec fn path_joined(directory: PathBuf, name: Seq<char>) -> PathBuf;

/// The path that `Path::with_extension` makes of a path and an extension.
pub uninterp spec fn path_extended(path: PathBuf, extension: Seq<char>) -> PathBuf;

/// Whether a character is an ASCII letter or digit.
pub open spec fn is_plain_char(c: char) -> bool {
    ('0' <= c <= '9') || ('A' <= c <= 'Z') || ('a' <= c <= 'z')
}

/// Whether a text holds ASCII letters and digits alone.
pub open spec fn is_plain(text: Seq<char>) -> bool {
    forall|i: int| 0 <= i < text.len() ==> is_plain_char(#[trigger] text[i])
}

/// Whether a text holds a character that separates the components of a path
/// on some system.
pub open spec fn has_separator(text: Seq<char>) -> bool {
    text.contains('/') || text.contains('\\')
}

/// Whether a text is the name of a file or a directory: it is not empty, holds
/// no separator and no colon, which ends the name of a drive on some systems,
/// and is neither of the two names that stand for the directory itself and the
/// one above it.
pub open spec fn is_file_name(name: Seq<char>) -> bool {
    &&& name.len() > 0
    &&& !has_separator(name)
    &&& !name.contains(':')
    &&& name != seq!['.']
    &&& name != seq!['.', '.']
}

/// What stands before the last dot of a text that has one.
pub open spec fn before_last_dot(text: Seq<char>) -> Seq<char>
    decreases text.len(),
{
    if text.len() == 0 {
        text
    } else if text.last() == '.' {
        text.drop_last()
    } else {
        before_last_dot(text.drop_last())
    }
}

/// What stands before the last dot of a file name. A dot in front does not
/// count; a name without another one is all stem.
pub open spec fn file_stem(name: Seq<char>) -> Seq<char> {
    if name.skip(1).contains('.') {
        before_last_dot(name)
    } else {
        name
    }
}

/// A file name with its extension replaced, or taken away by an empty one.
pub open spec fn with_extension(name: Seq<char>, extension: Seq<char>) -> Seq<char> {
    if extension.len() == 0 {
        file_stem(name)
    } else {
        file_stem(name).push('.') + extension
    }
}

/// Whether a text is the name of a file, and still is with an extension. A name
/// of two dots in front and no other has a stem of one dot, which is no name.
pub open spec fn names_file(name: Seq<char>, extension: Seq<char>) -> bool {
    &&& is_file_name(name)
    &&& file_stem(name) != seq!['.']
    &&& is_file_name(with_extension(name, extension))
}

/// Whether the components of a directory are such that a name goes behind them
/// on every system. One that starts with a backslash may be the beginning of a
/// network name on Windows, such as `\\server`, which the next name would
/// complete.
pub open spec fn takes_names(parts: Seq<Seq<char>>) -> bool {
    parts.len() > 0 ==> !parts[0].contains('\\')
}

/// `Path::join`. A file name goes behind the components of the directory. Of
/// other texts, which may be absolute, hold several components or stand for a
/// directory, no more is stated than that the path follows from the two.
#[verifier::external_body]
pub(crate) fn join_path(directory: &PathBuf, name: &str) -> (path: PathBuf)
    ensures
        path == path_joined(*directory, name@),
        is_file_name(name@) && takes_names(path_parts(*directory)) ==> path_parts(path)
            == path_parts(*directory).push(name@),
{
    directory.join(name)
}

/// `Path::with_extension`. Where the path ends with a file name, that name gets
/// the extension in place of its own, or loses its own to an empty one. An
/// extension with a separator panics. Of a path that does not end with a file
/// name, and of a change that leaves no file name, no more is stated than that
/// the result follows from the two.
#[verifier::external_body]
pub(crate) fn path_with_extension(path: &PathBuf, extension: &str) -> (renamed: PathBuf)
    requires
        !has_separator(extension@),
    ensures
        renamed == path_extended(*path, extension@),
        path_parts(*path).len() > 0 && names_file(path_parts(*path).last(), extension@)
            ==> path_parts(renamed) == path_parts(*path).drop_last().push(
            with_extension(path_parts(*path).last(), extension@),
        ),
{
    path.with_extension(extension)
}

}
