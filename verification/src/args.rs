//! The settings of a run and the rules for the values that they may have.

use std::path::PathBuf;
use std::time::Duration;
use vstd::prelude::*;
use vstd::string::*;

use crate::outside::duration_of_secs;
use crate::text::{
    decimal, law_decimal_reads_back, law_numbers_are_read_in_turn,
    law_usize_is_a_number_that_fits, parse_usize, usize_value,
};

verus! {

/// What kept a run from starting.
#[derive(Debug)]
pub enum ArgsError {
    /// The HTTP client could not be built, for the reason given.
    ClientBuild(String),
    /// The output directory could not be created, for the reason given.
    CreateDirectory(String),
}

impl ArgsError {
    /// The message that a user sees.
    pub open spec fn spec_message(self) -> Seq<char> {
        match self {
            ArgsError::ClientBuild(reason) => "Failed to build HTTP client: "@ + reason@,
            ArgsError::CreateDirectory(reason) => "Failed to create output directory: "@ + reason@,
        }
    }

    /// The message that a user sees.
    pub fn message(&self) -> (message: String)
        ensures
            message@ == self.spec_message(),
    {
        match self {
            ArgsError::ClientBuild(reason) => "Failed to build HTTP client: ".to_owned().concat(
                reason.as_str(),
            ),
            ArgsError::CreateDirectory(reason) =>
                "Failed to create output directory: ".to_owned().concat(reason.as_str()),
        }
    }
}

/// How downloaded ranges are stored.
#[derive(Clone, Copy, Debug, PartialEq, Eq, Structural)]
pub enum CompressionFormat {
    Plain,
    Brotli,
    Gzip,
}

impl CompressionFormat {
    /// The extension of the files in this format.
    pub open spec fn spec_str(self) -> Seq<char> {
        match self {
            CompressionFormat::Plain => ""@,
            CompressionFormat::Brotli => "br"@,
            CompressionFormat::Gzip => "gz"@,
        }
    }

    /// The extension of the files in this format; empty for plain files.
    pub fn as_str(&self) -> (text: &'static str)
        ensures
            text@ == self.spec_str(),
    {
        match self {
            CompressionFormat::Plain => "",
            CompressionFormat::Brotli => "br",
            CompressionFormat::Gzip => "gz",
        }
    }
}

/// The kind of hash that is downloaded.
#[derive(Clone, Copy, Debug, PartialEq, Eq, Structural)]
pub enum HashMode {
    Ntlm,
    Sha1,
}

impl HashMode {
    /// The name of the mode.
    pub open spec fn spec_str(self) -> Seq<char> {
        match self {
            HashMode::Ntlm => "ntlm"@,
            HashMode::Sha1 => "sha1"@,
        }
    }

    /// The name of the mode.
    pub fn as_str(&self) -> (text: &'static str)
        ensures
            text@ == self.spec_str(),
    {
        match self {
            HashMode::Ntlm => "ntlm",
            HashMode::Sha1 => "sha1",
        }
    }
}

impl Default for HashMode {
    fn default() -> (mode: Self)
        ensures
            mode == HashMode::Sha1,
    {
        HashMode::Sha1
    }
}

/// The settings of a run.
#[derive(Debug)]
pub struct Args {
    /// Compression format for storing downloaded hashes
    pub compression: CompressionFormat,
    /// Download hashes using the selected mode
    pub hash_mode: HashMode,
    /// In incremental mode, issue conditional requests even if the hash file is missing
    pub ignore_missing_hash_file: bool,
    /// Continue from a previous download and fetch only changed or missing hashes
    pub incremental: bool,
    /// Maximum number of concurrent requests
    pub max_concurrent_requests: usize,
    /// Number of retry attempts for failed requests
    pub max_retries: usize,
    /// Directory for storing downloaded hashes
    pub output_directory: PathBuf,
    /// Disable progress bar output
    pub quiet: bool,
    /// Request timeout in seconds
    pub request_timeout: Duration,
    /// User-Agent string for HTTP requests
    pub user_agent: String,
}

impl Clone for Args {
    fn clone(&self) -> (copy: Self)
        ensures
            copy == *self,
    {
        Args {
            compression: self.compression,
            hash_mode: self.hash_mode,
            ignore_missing_hash_file: self.ignore_missing_hash_file,
            incremental: self.incremental,
            max_concurrent_requests: self.max_concurrent_requests,
            max_retries: self.max_retries,
            output_directory: self.output_directory.clone(),
            quiet: self.quiet,
            request_timeout: self.request_timeout,
            user_agent: self.user_agent.clone(),
        }
    }
}

/// The kind of an error in a setting.
#[derive(Clone, Copy, Debug, PartialEq, Eq, Structural)]
pub enum ErrorKind {
    /// The text of the setting is not one of its values.
    InvalidValue,
}

/// An error in a setting.
#[derive(Debug)]
pub struct ValueError {
    kind: ErrorKind,
    message: String,
}

impl ValueError {
    /// The kind of the error.
    pub closed spec fn spec_kind(self) -> ErrorKind {
        self.kind
    }

    /// What is wrong with the setting.
    pub closed spec fn spec_message(self) -> Seq<char> {
        self.message@
    }

    /// The kind of the error.
    pub fn kind(&self) -> (kind: ErrorKind)
        ensures
            kind == self.spec_kind(),
    {
        self.kind
    }

    /// What is wrong with the setting.
    pub fn message(&self) -> (message: &str)
        ensures
            message@ == self.spec_message(),
    {
        self.message.as_str()
    }
}

/// What is said of a setting that is not a number.
pub open spec fn not_an_integer(text: Seq<char>) -> Seq<char> {
    "`"@ + text + "` isn't a valid integer"@
}

/// Whether `error` is the error of a setting that must be a number above zero
/// and is not.
pub open spec fn is_error_of(error: ValueError, text: Seq<char>) -> bool {
    &&& error.spec_kind() == ErrorKind::InvalidValue
    &&& error.spec_message() == (match usize_value(text) {
        Some(_) => "Value must be greater than 0"@,
        None => not_an_integer(text),
    })
}

/// Whether a setting is the text of a number above zero.
pub open spec fn is_positive(text: Seq<char>) -> bool {
    usize_value(text) matches Some(number) && number > 0
}

/// Reads a setting that must be a number above zero.
pub fn parse_greater_than_zero(s: &str) -> (result: Result<usize, ValueError>)
    ensures
        result is Ok <==> is_positive(s@),
        result matches Ok(number) ==> usize_value(s@) == Some(number),
        result matches Err(error) ==> is_error_of(error, s@),
{
    match parse_usize(s) {
        None => Err(
            ValueError {
                kind: ErrorKind::InvalidValue,
                message: "`".to_owned().concat(s).concat("` isn't a valid integer"),
            },
        ),
        Some(0) => Err(
            ValueError {
                kind: ErrorKind::InvalidValue,
                message: "Value must be greater than 0".to_owned(),
            },
        ),
        Some(number) => Ok(number),
    }
}

/// Reads a setting that must be a number of seconds above zero.
pub fn parse_duration_seconds(s: &str) -> (result: Result<Duration, ValueError>)
    ensures
        result is Ok <==> is_positive(s@),
        result matches Ok(duration) ==> (usize_value(s@) matches Some(seconds) && duration
            == duration_of_secs(seconds as u64)),
        result matches Err(error) ==> is_error_of(error, s@),
{
    match parse_greater_than_zero(s) {
        Ok(seconds) => Ok(Duration::from_secs(seconds as u64)),
        Err(error) => Err(error),
    }
}

/// How the HTTP client of a run is set up.
#[derive(Debug)]
pub struct ClientOptions {
    /// The content coding that every request asks for.
    pub accept_encoding: &'static str,
    /// Whether the client decodes the content coding of a response.
    pub decode_responses: bool,
    /// How long a request may take.
    pub timeout: Duration,
    /// The `User-Agent` of every request.
    pub user_agent: String,
}

/// The content coding that a run asks for. Ranges that are stored as plain
/// text travel compressed too.
pub open spec fn accept_encoding(compression: CompressionFormat) -> Seq<char> {
    match compression {
        CompressionFormat::Gzip => "gzip"@,
        _ => "br"@,
    }
}

/// How the HTTP client of a run with these settings is set up.
pub fn client_options(args: &Args) -> (options: ClientOptions)
    ensures
        options.accept_encoding@ == accept_encoding(args.compression),
        options.decode_responses == (args.compression == CompressionFormat::Plain),
        options.timeout == args.request_timeout,
        options.user_agent@ == args.user_agent@,
{
    ClientOptions {
        accept_encoding: match args.compression {
            CompressionFormat::Brotli | CompressionFormat::Plain => "br",
            CompressionFormat::Gzip => "gzip",
        },
        decode_responses: match args.compression {
            CompressionFormat::Plain => true,
            _ => false,
        },
        timeout: args.request_timeout,
        user_agent: args.user_agent.clone(),
    }
}

/// Settings for a small run into a directory.
pub fn create_test_args(output_dir: PathBuf) -> (args: Args)
    ensures
        args.compression == CompressionFormat::Plain,
        args.max_concurrent_requests == 1,
        args.max_retries == 3,
        !args.incremental,
        args.hash_mode == HashMode::Sha1,
        !args.ignore_missing_hash_file,
        args.output_directory == output_dir,
        args.request_timeout == duration_of_secs(30),
        args.quiet,
        args.user_agent@ == "test-agent/1.0"@,
{
    Args {
        compression: CompressionFormat::Plain,
        max_concurrent_requests: 1,
        max_retries: 3,
        incremental: false,
        hash_mode: HashMode::Sha1,
        ignore_missing_hash_file: false,
        output_directory: output_dir,
        request_timeout: Duration::from_secs(30),
        quiet: true,
        user_agent: "test-agent/1.0".to_owned(),
    }
}

/// Which texts a setting above zero takes, and what is said of the others.
pub proof fn law_settings_above_zero(text: Seq<char>, error: ValueError)
    ensures
        is_positive(text) <==> (usize_value(text) is Some && usize_value(text)->0 >= 1),
        is_error_of(error, text) && usize_value(text) is None ==> error.spec_kind()
            == ErrorKind::InvalidValue && error.spec_message() == "`"@ + text
            + "` isn't a valid integer"@,
        is_error_of(error, text) && usize_value(text) == Some(0usize) ==> error.spec_kind()
            == ErrorKind::InvalidValue && error.spec_message() == "Value must be greater than 0"@,
{
}

/// Every number above zero that fits is a value of a setting, in decimal and with
/// a plus sign in front.
pub proof fn law_settings_take_numbers(n: nat)
    requires
        0 < n <= usize::MAX,
    ensures
        is_positive(decimal(n)),
        usize_value(decimal(n)) == Some(n as usize),
        is_positive(seq!['+'] + decimal(n)),
        usize_value(seq!['+'] + decimal(n)) == Some(n as usize),
{
    law_decimal_reads_back(n);
    law_numbers_are_read_in_turn(decimal(n), '0');
    law_usize_is_a_number_that_fits(decimal(n));
    law_usize_is_a_number_that_fits(seq!['+'] + decimal(n));
    assert(decimal(n)[0] != '+');
}

/// The names that the settings stand for outside the program: extensions of
/// files, modes of the service, and content codings. The modes differ, and so do
/// the extensions.
pub proof fn law_names_of_settings()
    ensures
        CompressionFormat::Plain.spec_str() == Seq::<char>::empty(),
        CompressionFormat::Brotli.spec_str() == seq!['b', 'r'],
        CompressionFormat::Gzip.spec_str() == seq!['g', 'z'],
        HashMode::Ntlm.spec_str() == seq!['n', 't', 'l', 'm'],
        HashMode::Sha1.spec_str() == seq!['s', 'h', 'a', '1'],
        accept_encoding(CompressionFormat::Plain) == seq!['b', 'r'],
        accept_encoding(CompressionFormat::Brotli) == seq!['b', 'r'],
        accept_encoding(CompressionFormat::Gzip) == seq!['g', 'z', 'i', 'p'],
{
    reveal_strlit("");
    reveal_strlit("br");
    reveal_strlit("gz");
    reveal_strlit("gzip");
    reveal_strlit("ntlm");
    reveal_strlit("sha1");
}

/// What a user reads when a run cannot start: what failed, and why.
pub proof fn law_start_errors_tell_reason(reason: String)
    ensures
        ArgsError::ClientBuild(reason).spec_message() == "Failed to build HTTP client: "@ + reason@,
        ArgsError::CreateDirectory(reason).spec_message() == "Failed to create output directory: "@
            + reason@,
{
}

}
