//! What the writers of downloaded ranges share: the line that they log for a
//! range, what they note in the cache, and the error that they report.

use std::path::PathBuf;
use vstd::prelude::*;
use vstd::string::*;

use crate::etag::ETagCache;
use crate::outside::{is_file_name, join_path, path_joined, path_parts, takes_names};
use crate::text::{
    base16_value, decimal, decimal_text, digits_value, hex_padded, hex_text,
    law_decimal_reads_back, law_hexadecimal_reads_back,
};

verus! {

/// The name of the file that the writers log to.
pub const DEBUG_LOG_FILENAME: &'static str = "download_debug.log";

/// The file that the writers log to: in the output directory.
pub fn debug_log_path(output_dir: &PathBuf) -> (path: PathBuf)
    ensures
        path == path_joined(*output_dir, DEBUG_LOG_FILENAME@),
        takes_names(path_parts(*output_dir)) ==> path_parts(path) == path_parts(*output_dir).push(
            DEBUG_LOG_FILENAME@,
        ),
{
    proof {
        reveal_strlit("download_debug.log");
        let name = DEBUG_LOG_FILENAME@;
        assert(!name.contains('/') && !name.contains('\\') && !name.contains(':'));
        assert(name.len() > 2);
        assert(is_file_name(name));
    }
    join_path(output_dir, DEBUG_LOG_FILENAME)
}

/// A range that could not be written, for the reason given.
#[derive(Debug)]
pub struct RangeError {
    message: String,
}

impl RangeError {
    /// The message that a user sees.
    pub closed spec fn spec_message(self) -> Seq<char> {
        self.message@
    }

    /// The error with a message.
    pub fn new(message: String) -> (error: Self)
        ensures
            error.spec_message() == message@,
    {
        RangeError { message }
    }

    /// The message that a user sees.
    pub fn message(&self) -> (message: &str)
        ensures
            message@ == self.spec_message(),
    {
        self.message.as_str()
    }
}

/// The ETags once a range was written: its own is noted, if it has one.
pub open spec fn with_etag(
    etags: Map<Seq<char>, String>,
    hash_prefix: Seq<char>,
    etag: Option<String>,
) -> Map<Seq<char>, String> {
    match etag {
        Some(value) => etags.insert(hash_prefix, value),
        None => etags,
    }
}

/// What is logged for a range that was written.
pub open spec fn log_entry(
    sequence: nat,
    hash_prefix: Seq<char>,
    bytes: nat,
    etag: Option<String>,
) -> Seq<char> {
    "seq="@ + hex_padded(sequence, 6) + " range="@ + hash_prefix + " bytes="@ + decimal(bytes)
        + " etag="@ + (match etag {
        Some(value) => value@,
        None => "none"@,
    })
}

/// What is logged for a range that was written.
pub fn log_entry_text(sequence: u64, hash_prefix: &str, bytes: u64, etag: &Option<String>) -> (line:
    String)
    ensures
        line@ == log_entry(sequence as nat, hash_prefix@, bytes as nat, *etag),
{
    let etag_text = match etag {
        Some(value) => value.as_str(),
        None => "none",
    };
    "seq=".to_owned().concat(hex_text(sequence, 6).as_str()).concat(" range=").concat(
        hash_prefix,
    ).concat(" bytes=").concat(decimal_text(bytes).as_str()).concat(" etag=").concat(etag_text)
}

/// Notes the ETag of a range that was written, if it has one.
pub fn note_etag(cache: &mut ETagCache, hash_prefix: &str, etag: &Option<String>)
    ensures
        final(cache).etags@ == with_etag(old(cache).etags@, hash_prefix@, *etag),
        final(cache).mode == old(cache).mode,
        final(cache).path == old(cache).path,
{
    match etag {
        Some(value) => {
            cache.etags.insert(hash_prefix.to_owned(), value.clone());
        },
        None => {},
    }
}

/// What the log says of a range: its number in hexadecimal, with six digits at
/// least, its prefix, the bytes that were written, and its ETag or that it has
/// none.
pub proof fn law_log_tells_range(
    sequence: nat,
    hash_prefix: Seq<char>,
    bytes: nat,
    etag: Option<String>,
)
    ensures
        exists|number: Seq<char>, size: Seq<char>|
            {
                &&& #[trigger] base16_value(number) == sequence
                &&& number.len() >= 6
                &&& number.len() > 6 ==> number[0] != '0'
                &&& forall|i: int|
                    0 <= i < number.len() ==> ('0' <= #[trigger] number[i] <= '9' || 'A'
                        <= number[i] <= 'F')
                &&& #[trigger] digits_value(size) == bytes
                &&& forall|i: int| 0 <= i < size.len() ==> '0' <= #[trigger] size[i] <= '9'
                &&& size.len() > 0 && (size[0] == '0' ==> size.len() == 1)
                &&& etag is None ==> log_entry(sequence, hash_prefix, bytes, etag) == "seq="@
                    + number + " range="@ + hash_prefix + " bytes="@ + size + " etag="@ + "none"@
                &&& etag matches Some(text) ==> log_entry(sequence, hash_prefix, bytes, etag)
                    == "seq="@ + number + " range="@ + hash_prefix + " bytes="@ + size + " etag="@
                    + text@
            },
{
    law_hexadecimal_reads_back(sequence, 6);
    law_decimal_reads_back(bytes);
    let (number, size) = (hex_padded(sequence, 6), decimal(bytes));
    assert(base16_value(number) == sequence && digits_value(size) == bytes);
}

/// A range that was written has its own ETag noted, if it has one; no other range
/// is touched.
pub proof fn law_only_own_etag_is_noted(
    etags: Map<Seq<char>, String>,
    hash_prefix: Seq<char>,
    etag: Option<String>,
    other: Seq<char>,
)
    ensures
        ({
            let after = with_etag(etags, hash_prefix, etag);
            &&& etag matches Some(text) ==> after.contains_key(hash_prefix) && after[hash_prefix]
                == text
            &&& etag is None ==> after == etags
            &&& other != hash_prefix ==> after.contains_key(other) == etags.contains_key(other) && (
            etags.contains_key(other) ==> after[other] == etags[other])
        }),
{
}

}
