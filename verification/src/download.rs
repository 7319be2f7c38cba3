//! The download of one range: the request, what each answer leads to, and
//! when to try again.

use vstd::arithmetic::power2::pow2;
use vstd::prelude::*;
use vstd::string::*;

use crate::args::{Args, HashMode};
use crate::outside::{
    header_text, is_visible_ascii, random_between, status_display, status_text,
};
use crate::string_map::StringMap;
use crate::text::{decimal, decimal_text};
use crate::writer::WriteError;

verus! {

/// The longest time to wait before another attempt, in seconds.
pub const MAX_BACKOFF_SECS: u64 = 60;

/// An HTTP status code, which has three digits.
#[derive(Clone, Copy, Debug, PartialEq, Eq, Structural)]
pub struct StatusCode {
    code: u16,
}

impl StatusCode {
    #[verifier::type_invariant]
    spec fn has_three_digits(self) -> bool {
        100 <= self.code <= 999
    }

    /// The number of the status code.
    pub closed spec fn spec_code(self) -> u16 {
        self.code
    }

    /// The status code with a number, where the number has three digits.
    pub fn from_u16(code: u16) -> (status: Option<StatusCode>)
        ensures
            status is Some <==> 100 <= code <= 999,
            status matches Some(s) ==> s.spec_code() == code,
    {
        if 100 <= code && code <= 999 {
            Some(StatusCode { code })
        } else {
            None
        }
    }

    /// The number of the status code.
    pub fn as_u16(&self) -> (code: u16)
        ensures
            code == self.spec_code(),
    {
        self.code
    }

    /// The text that a user sees for the status code.
    fn display(&self) -> (text: String)
        ensures
            text@ == status_display(self.spec_code()),
    {
        proof {
            use_type_invariant(self);
        }
        status_text(self.code)
    }
}

/// What kept a range from being downloaded.
#[derive(Debug)]
pub enum DownloadError {
    /// The file of the range could not be written.
    FileOperation { retries: usize, source: WriteError },
    /// The run was cancelled.
    Cancelled { hash: String },
    /// The service refused the request for good.
    Client { hash: String, status_code: StatusCode, retries: usize },
    /// The service did not answer the request well.
    Http { hash: String, status_code: StatusCode, retries: usize },
    /// There was no answer.
    Network { hash: String, error: String, retries: usize },
}

impl DownloadError {
    /// The message that a user sees.
    pub open spec fn spec_message(self) -> Seq<char> {
        match self {
            DownloadError::FileOperation { retries, source } => "File operation failed after "@
                + decimal(retries as nat) + " retries: "@ + source.spec_message(),
            DownloadError::Cancelled { hash } => "Downloads for hash "@ + hash@ + " cancelled"@,
            DownloadError::Client { hash, status_code, retries } => "Client error "@
                + status_display(status_code.spec_code()) + " for hash "@ + hash@ + " after "@
                + decimal(retries as nat) + " retries: not retrying"@,
            DownloadError::Http { hash, status_code, retries } => "HTTP error "@ + status_display(
                status_code.spec_code(),
            ) + " for hash "@ + hash@ + ": failed after "@ + decimal(retries as nat) + " retries"@,
            DownloadError::Network { hash, error, retries } => "Network error "@ + error@
                + " for hash "@ + hash@ + ": failed after "@ + decimal(retries as nat)
                + " retries"@,
        }
    }

    /// The message that a user sees.
    pub fn message(&self) -> (message: String)
        ensures
            message@ == self.spec_message(),
    {
        match self {
            DownloadError::FileOperation { retries, source } =>
                "File operation failed after ".to_owned().concat(
                decimal_text(*retries as u64).as_str(),
            ).concat(" retries: ").concat(source.message().as_str()),
            DownloadError::Cancelled { hash } => "Downloads for hash ".to_owned().concat(
                hash.as_str(),
            ).concat(" cancelled"),
            DownloadError::Client { hash, status_code, retries } =>
                "Client error ".to_owned().concat(status_code.display().as_str()).concat(
                " for hash ",
            ).concat(hash.as_str()).concat(" after ").concat(
                decimal_text(*retries as u64).as_str(),
            ).concat(" retries: not retrying"),
            DownloadError::Http { hash, status_code, retries } => "HTTP error ".to_owned().concat(
                status_code.display().as_str(),
            ).concat(" for hash ").concat(hash.as_str()).concat(": failed after ").concat(
                decimal_text(*retries as u64).as_str(),
            ).concat(" retries"),
            DownloadError::Network { hash, error, retries } => "Network error ".to_owned().concat(
                error.as_str(),
            ).concat(" for hash ").concat(hash.as_str()).concat(": failed after ").concat(
                decimal_text(*retries as u64).as_str(),
            ).concat(" retries"),
        }
    }

    /// How many times the request was repeated before the error, where it was
    /// not cancelled.
    pub open spec fn spec_retries(self) -> Option<usize> {
        match self {
            DownloadError::Client { retries, .. } => Some(retries),
            DownloadError::FileOperation { retries, .. } => Some(retries),
            DownloadError::Http { retries, .. } => Some(retries),
            DownloadError::Network { retries, .. } => Some(retries),
            DownloadError::Cancelled { .. } => None,
        }
    }

    /// How many times the request was repeated before the error, where it was
    /// not cancelled.
    pub fn retries(&self) -> (retries: Option<usize>)
        ensures
            retries == self.spec_retries(),
    {
        match self {
            DownloadError::Client { retries, .. }
            | DownloadError::FileOperation { retries, .. }
            | DownloadError::Http { retries, .. }
            | DownloadError::Network { retries, .. } => Some(*retries),
            DownloadError::Cancelled { .. } => None,
        }
    }
}

/// What came of a download: the ETag of what was written, if there is one.
#[derive(Debug, PartialEq, Eq)]
pub struct DownloadOutcome {
    pub etag: Option<String>,
    pub retries_used: u64,
}

impl Clone for DownloadOutcome {
    fn clone(&self) -> (copy: Self)
        ensures
            copy.retries_used == self.retries_used,
            copy.etag == self.etag,
    {
        DownloadOutcome {
            etag: match &self.etag {
                Some(etag) => Some(etag.clone()),
                None => None,
            },
            retries_used: self.retries_used,
        }
    }
}

/// How a download came to a good end.
#[derive(Debug)]
pub enum DownloadStatus {
    /// The range was written; the answer may have had an ETag.
    Downloaded { etag: Option<String> },
    /// The range has not changed.
    NotModified,
}

/// A download that came to a good end.
#[derive(Debug)]
pub struct FinishedDownload {
    pub status: DownloadStatus,
    pub retries_used: u64,
}

impl FinishedDownload {
    /// The outcome of the download. A range that has not changed and one
    /// without an ETag look alike.
    pub fn outcome(self) -> (outcome: DownloadOutcome)
        ensures
            outcome.retries_used == self.retries_used,
            outcome.etag == (match self.status {
                DownloadStatus::Downloaded { etag } => etag,
                DownloadStatus::NotModified => None,
            }),
    {
        DownloadOutcome {
            etag: match self.status {
                DownloadStatus::Downloaded { etag } => etag,
                DownloadStatus::NotModified => None,
            },
            retries_used: self.retries_used,
        }
    }
}

/// A request for a range.
#[derive(Debug)]
pub struct RequestPlan {
    /// The address.
    pub url: String,
    /// The name and the value of the one parameter of the query.
    pub query: Option<(&'static str, &'static str)>,
    /// The value of the `If-None-Match` header.
    pub if_none_match: Option<String>,
}

/// The request for a range. It is conditional if there is an ETag.
pub fn request_plan(args: &Args, base_url: &str, hash: &str, etag: Option<&str>) -> (plan:
    RequestPlan)
    ensures
        plan.url@ == base_url@ + hash@,
        plan.query is Some <==> args.hash_mode == HashMode::Ntlm,
        plan.query matches Some((name, value)) ==> name@ == "mode"@ && value@ == "ntlm"@,
        plan.if_none_match is Some <==> etag is Some,
        plan.if_none_match matches Some(value) ==> value@ == etag->0@,
{
    RequestPlan {
        url: base_url.to_owned().concat(hash),
        query: match args.hash_mode {
            HashMode::Ntlm => Some(("mode", "ntlm")),
            HashMode::Sha1 => None,
        },
        if_none_match: match etag {
            Some(value) => Some(value.to_owned()),
            None => None,
        },
    }
}

/// The ETag that makes the request for a range conditional.
pub open spec fn spec_conditional_etag(
    incremental: bool,
    ignore_missing_hash_file: bool,
    file_exists: bool,
    cached: Map<Seq<char>, String>,
    hash: Seq<char>,
) -> Option<String> {
    if incremental && (ignore_missing_hash_file || file_exists) && cached.contains_key(hash) {
        Some(cached[hash])
    } else {
        None
    }
}

/// Whether it matters to the request for a range that its file exists.
pub fn needs_file_check(args: &Args) -> (needed: bool)
    ensures
        needed == (args.incremental && !args.ignore_missing_hash_file),
{
    args.incremental && !args.ignore_missing_hash_file
}

/// The ETag that makes the request for a range conditional: the cached one, in
/// an incremental run, if the file of the range is there or need not be.
pub fn conditional_etag(
    args: &Args,
    file_exists: bool,
    cached_etags: &StringMap<String>,
    hash: &str,
) -> (etag: Option<String>)
    ensures
        etag == spec_conditional_etag(
            args.incremental,
            args.ignore_missing_hash_file,
            file_exists,
            cached_etags@,
            hash@,
        ),
{
    if args.incremental && (args.ignore_missing_hash_file || file_exists) {
        match cached_etags.get(hash) {
            Some(etag) => Some(etag.clone()),
            None => None,
        }
    } else {
        None
    }
}

/// A run that is not incremental, and one without a cached ETag for a range,
/// asks for the range whatever the service last said of it. So does a run that
/// finds the file of the range missing, unless it ignores that; then, and if
/// the file is there, the cached ETag goes with the request.
pub proof fn law_when_requests_are_conditional(
    incremental: bool,
    ignore_missing_hash_file: bool,
    file_exists: bool,
    cached: Map<Seq<char>, String>,
    hash: Seq<char>,
)
    ensures
        ({
            let etag = spec_conditional_etag(
                incremental,
                ignore_missing_hash_file,
                file_exists,
                cached,
                hash,
            );
            &&& !incremental ==> etag is None
            &&& !cached.contains_key(hash) ==> etag is None
            &&& !file_exists && !ignore_missing_hash_file ==> etag is None
            &&& incremental && cached.contains_key(hash) && (file_exists
                || ignore_missing_hash_file) ==> etag == Some(cached[hash])
        }),
{
}

/// The ETag that the header of a response gives: the bytes of the header, if
/// all of them are visible ASCII characters.
pub open spec fn is_header_etag(header: Option<Seq<u8>>, etag: Option<Seq<char>>) -> bool {
    match header {
        Some(value) => if forall|i: int|
            0 <= i < value.len() ==> is_visible_ascii(#[trigger] value[i]) {
            etag == Some(value.map_values(|b: u8| b as char))
        } else {
            etag is None
        },
        None => etag is None,
    }
}

/// A text that may be missing, as characters.
pub open spec fn optional_text(text: Option<String>) -> Option<Seq<char>> {
    match text {
        Some(t) => Some(t@),
        None => None,
    }
}

/// Bytes that may be missing, as a sequence.
pub open spec fn optional_bytes(bytes: Option<Vec<u8>>) -> Option<Seq<u8>> {
    match bytes {
        Some(b) => Some(b@),
        None => None,
    }
}

/// The ETag that the header of a response gives.
pub fn header_etag(header: &Option<Vec<u8>>) -> (etag: Option<String>)
    ensures
        is_header_etag(optional_bytes(*header), optional_text(etag)),
{
    match header {
        Some(value) => header_text(value.as_slice()),
        None => None,
    }
}

/// The text for a request that got no answer: the cause, or the error itself
/// where no cause is known.
pub fn network_error_text(cause: Option<String>, error: String) -> (text: String)
    ensures
        text == (match cause {
            Some(c) => c,
            None => error,
        }),
{
    match cause {
        Some(text) => text,
        None => error,
    }
}

/// Twice as many seconds after each attempt, up to the longest time. The
/// exponent is the number of retries as far as 32 bits hold it.
pub open spec fn spec_backoff_delay(retry: nat) -> nat {
    let doubled = pow2(retry % 0x1_0000_0000);
    if doubled < MAX_BACKOFF_SECS {
        doubled
    } else {
        MAX_BACKOFF_SECS as nat
    }
}

/// The longest time to wait after an attempt, in seconds.
pub fn backoff_delay(retry: usize) -> (seconds: u64)
    ensures
        seconds == spec_backoff_delay(retry as nat),
        1 <= seconds <= MAX_BACKOFF_SECS,
{
    let exponent: u64 = (retry as u64) % 0x1_0000_0000;
    proof {
        vstd::arithmetic::power2::lemma2_to64();
        if exponent > 6 {
            vstd::arithmetic::power2::lemma_pow2_strictly_increases(6, exponent as nat);
        }
    }
    match exponent {
        0 => 1,
        1 => 2,
        2 => 4,
        3 => 8,
        4 => 16,
        5 => 32,
        _ => MAX_BACKOFF_SECS,
    }
}

/// The time to wait, for a time that chance has picked: at least a second.
pub fn jitter(sample: u64) -> (seconds: u64)
    ensures
        seconds == (if sample > 1 {
            sample
        } else {
            1
        }),
{
    if sample > 1 {
        sample
    } else {
        1
    }
}

/// What happened in an attempt.
#[derive(Debug)]
pub enum AttemptEvent {
    /// The service answered; the answer may have had an ETag header.
    Response { status_code: StatusCode, etag: Option<Vec<u8>> },
    /// The body of the answer was written.
    BodyWritten,
    /// The body of the answer could not be written.
    WriteFailed(WriteError),
    /// There was no answer. The cause of the error may be known.
    SendFailed { cause: Option<String>, error: String },
}

/// What to do next in a download.
#[derive(Debug)]
pub enum DownloadAction {
    /// Write the body of the answer, and report what came of it.
    WriteBody,
    /// Wait, then try again.
    Retry,
    /// Nothing is left to do, and this came of it.
    Finish(Result<FinishedDownload, DownloadError>),
}

/// Whether a status code says that the request is at fault.
pub open spec fn is_client_error(code: u16) -> bool {
    400 <= code < 500
}

/// Whether an answer with this status code settles the download.
pub open spec fn settles(code: u16, conditional: bool) -> bool {
    ||| code == 200
    ||| code == 304 && conditional
    ||| is_client_error(code) && code != 429
}

/// Whether the service answered with the range.
pub open spec fn is_good_answer(event: AttemptEvent) -> bool {
    event matches AttemptEvent::Response { status_code, .. } && status_code.spec_code() == 200
}

/// The ETag header of an answer.
pub open spec fn answer_etag(event: AttemptEvent) -> Option<Seq<u8>> {
    match event {
        AttemptEvent::Response { etag, .. } => optional_bytes(etag),
        _ => None,
    }
}

/// Whether an event calls for another attempt, if there may be one.
pub open spec fn calls_for_retry(event: AttemptEvent, conditional: bool) -> bool {
    match event {
        AttemptEvent::Response { status_code, .. } => !settles(status_code.spec_code(), conditional),
        AttemptEvent::BodyWritten => false,
        AttemptEvent::WriteFailed(error) => error.spec_is_retriable(),
        AttemptEvent::SendFailed { .. } => true,
    }
}

/// Whether a download that was repeated `retry` times tries again after an
/// event.
pub open spec fn retries_after(
    event: AttemptEvent,
    conditional: bool,
    retry: nat,
    max_retries: nat,
) -> bool {
    retry < max_retries && calls_for_retry(event, conditional)
}

/// Whether a result is the one that an event brings a download to, which does
/// not try again. The download is of a range, was repeated `retry` times, and
/// may hold the ETag of an answer whose body is being written.
pub open spec fn is_result(
    hash_text: Seq<char>,
    conditional: bool,
    retry: nat,
    etag: Option<String>,
    event: AttemptEvent,
    result: Result<FinishedDownload, DownloadError>,
) -> bool {
    match event {
        AttemptEvent::Response { status_code, .. } => if status_code.spec_code() == 304
            && conditional {
            result matches Ok(done) && done.status is NotModified && done.retries_used == retry
        } else if is_client_error(status_code.spec_code()) && status_code.spec_code() != 429 {
            result matches Err(DownloadError::Client { hash, status_code: code, retries })
                && hash@ == hash_text && code == status_code && retries == retry
        } else {
            result matches Err(DownloadError::Http { hash, status_code: code, retries }) && hash@
                == hash_text && code == status_code && retries == retry
        },
        AttemptEvent::BodyWritten => result matches Ok(done) && done.status == (
        DownloadStatus::Downloaded { etag }) && done.retries_used == retry,
        AttemptEvent::WriteFailed(error) => result matches Err(
            DownloadError::FileOperation { retries, source },
        ) && retries == retry && source == error,
        AttemptEvent::SendFailed { cause, error } => result matches Err(
            DownloadError::Network { hash, error: text, retries },
        ) && hash@ == hash_text && text == (match cause {
            Some(c) => c,
            None => error,
        }) && retries == retry,
    }
}

/// The download of one range.
#[derive(Debug)]
pub struct Download {
    hash: String,
    conditional: bool,
    max_retries: usize,
    retry: usize,
    etag: Option<String>,
}

impl Download {
    #[verifier::type_invariant]
    spec fn within_retries(self) -> bool {
        self.retry <= self.max_retries
    }

    /// The range.
    pub closed spec fn spec_hash(self) -> Seq<char> {
        self.hash@
    }

    /// Whether the request is conditional.
    pub closed spec fn spec_conditional(self) -> bool {
        self.conditional
    }

    /// How many times the request may be repeated.
    pub closed spec fn spec_max_retries(self) -> usize {
        self.max_retries
    }

    /// How many times the request was repeated.
    pub closed spec fn spec_retry(self) -> usize {
        self.retry
    }

    /// The ETag of the answer whose body is being written.
    pub closed spec fn spec_etag(self) -> Option<String> {
        self.etag
    }

    /// Whether another download is the same but for the ETag.
    pub open spec fn same_but_etag(self, other: Download) -> bool {
        &&& self.spec_hash() == other.spec_hash()
        &&& self.spec_conditional() == other.spec_conditional()
        &&& self.spec_max_retries() == other.spec_max_retries()
        &&& self.spec_retry() == other.spec_retry()
    }

    /// Whether a result is the one that an event brings a download to, which
    /// does not try again.
    pub open spec fn finishes_with(
        self,
        event: AttemptEvent,
        result: Result<FinishedDownload, DownloadError>,
    ) -> bool {
        is_result(
            self.spec_hash(),
            self.spec_conditional(),
            self.spec_retry() as nat,
            self.spec_etag(),
            event,
            result,
        )
    }

    /// Whether an event leads from one state of a download to another, with an
    /// action. A good answer has its body written, an answer that settles the
    /// download ends it, and anything else leads to another attempt as long as
    /// there may be one.
    pub open spec fn advances(
        self,
        event: AttemptEvent,
        after: Download,
        action: DownloadAction,
    ) -> bool {
        &&& after.same_but_etag(self)
        &&& if is_good_answer(event) {
            &&& action is WriteBody
            &&& is_header_etag(answer_etag(event), optional_text(after.spec_etag()))
        } else {
            &&& after.spec_etag() == self.spec_etag()
            &&& if retries_after(
                event,
                self.spec_conditional(),
                self.spec_retry() as nat,
                self.spec_max_retries() as nat,
            ) {
                action is Retry
            } else {
                action matches DownloadAction::Finish(result) && self.finishes_with(event, result)
            }
        }
    }

    /// Whether a state is the one with which the next attempt begins.
    pub open spec fn goes_on_with(self, next: Download) -> bool {
        &&& next.spec_retry() == self.spec_retry() + 1
        &&& next.spec_hash() == self.spec_hash()
        &&& next.spec_conditional() == self.spec_conditional()
        &&& next.spec_max_retries() == self.spec_max_retries()
        &&& next.spec_etag() == self.spec_etag()
    }

    /// Starts the download of a range, which may be repeated a number of
    /// times.
    pub fn start(hash: String, conditional: bool, max_retries: usize) -> (download: Self)
        ensures
            download.spec_hash() == hash@,
            download.spec_conditional() == conditional,
            download.spec_max_retries() == max_retries,
            download.spec_retry() == 0,
            download.spec_etag() is None,
    {
        Download { hash, conditional, max_retries, retry: 0, etag: None }
    }

    /// Says what an event leads to.
    pub fn advance(&mut self, event: AttemptEvent) -> (action: DownloadAction)
        ensures
            old(self).advances(event, *final(self), action),
    {
        proof {
            use_type_invariant(&*self);
        }
        match event {
            AttemptEvent::Response { status_code, etag } => {
                let code: u16 = status_code.as_u16();
                if code == 200 {
                    self.etag = header_etag(&etag);
                    DownloadAction::WriteBody
                } else if code == 304 && self.conditional {
                    DownloadAction::Finish(
                        Ok(
                            FinishedDownload {
                                status: DownloadStatus::NotModified,
                                retries_used: self.retry as u64,
                            },
                        ),
                    )
                } else if 400 <= code && code < 500 && code != 429 {
                    DownloadAction::Finish(
                        Err(
                            DownloadError::Client {
                                hash: self.hash.clone(),
                                status_code,
                                retries: self.retry,
                            },
                        ),
                    )
                } else if self.retry == self.max_retries {
                    DownloadAction::Finish(
                        Err(
                            DownloadError::Http {
                                hash: self.hash.clone(),
                                status_code,
                                retries: self.retry,
                            },
                        ),
                    )
                } else {
                    DownloadAction::Retry
                }
            },
            AttemptEvent::BodyWritten => {
                let etag = match &self.etag {
                    Some(etag) => Some(etag.clone()),
                    None => None,
                };
                DownloadAction::Finish(
                    Ok(
                        FinishedDownload {
                            status: DownloadStatus::Downloaded { etag },
                            retries_used: self.retry as u64,
                        },
                    ),
                )
            },
            AttemptEvent::WriteFailed(error) => {
                if self.retry == self.max_retries || !error.is_retriable() {
                    DownloadAction::Finish(
                        Err(DownloadError::FileOperation { retries: self.retry, source: error }),
                    )
                } else {
                    DownloadAction::Retry
                }
            },
            AttemptEvent::SendFailed { cause, error } => {
                if self.retry == self.max_retries {
                    DownloadAction::Finish(
                        Err(
                            DownloadError::Network {
                                hash: self.hash.clone(),
                                error: network_error_text(cause, error),
                                retries: self.retry,
                            },
                        ),
                    )
                } else {
                    DownloadAction::Retry
                }
            },
        }
    }

    /// Goes on to the next attempt, and says how many seconds to wait for it.
    /// Chance picks the time between half of the longest time and all of it.
    pub fn next_attempt(&mut self) -> (seconds: u64)
        requires
            old(self).spec_retry() < old(self).spec_max_retries(),
        ensures
            old(self).goes_on_with(*final(self)),
            1 <= seconds <= MAX_BACKOFF_SECS,
            spec_backoff_delay(old(self).spec_retry() as nat) / 2 <= seconds
                <= spec_backoff_delay(old(self).spec_retry() as nat),
    {
        let delay: u64 = backoff_delay(self.retry);
        let seconds: u64 = jitter(random_between(delay / 2, delay));
        self.retry = self.retry + 1;
        seconds
    }
}

/// One attempt at a download: what came of the request and, after a good
/// answer, what came of writing its body.
pub struct Attempt {
    pub answer: AttemptEvent,
    pub body: AttemptEvent,
}

impl Attempt {
    /// Whether the events are of the kinds that an attempt has.
    pub open spec fn is_valid(self) -> bool {
        &&& self.answer is Response || self.answer is SendFailed
        &&& self.body is BodyWritten || self.body is WriteFailed
    }

    /// The event that decides what the attempt leads to.
    pub open spec fn last_event(self) -> AttemptEvent {
        if is_good_answer(self.answer) {
            self.body
        } else {
            self.answer
        }
    }

    /// Whether a download goes through the attempt from one state to another,
    /// and comes to an action.
    pub open spec fn leads_to(
        self,
        before: Download,
        after: Download,
        action: DownloadAction,
    ) -> bool {
        if is_good_answer(self.answer) {
            exists|answered: Download|
                before.advances(self.answer, answered, DownloadAction::WriteBody)
                    && #[trigger] answered.advances(self.body, after, action)
        } else {
            before.advances(self.answer, after, action)
        }
    }
}

/// Whether a download makes these attempts, from a state on, and comes to a
/// result.
pub open spec fn makes_attempts(
    download: Download,
    attempts: Seq<Attempt>,
    result: Result<FinishedDownload, DownloadError>,
) -> bool
    decreases attempts.len(),
{
    &&& attempts.len() > 0
    &&& if attempts.len() == 1 {
        exists|after: Download| #[trigger]
            attempts[0].leads_to(download, after, DownloadAction::Finish(result))
    } else {
        exists|after: Download, next: Download|
            attempts[0].leads_to(download, after, DownloadAction::Retry)
                && #[trigger] after.goes_on_with(next) && makes_attempts(
                next,
                attempts.drop_first(),
                result,
            )
    }
}

/// Whether a result is the one that an attempt brings a download of a range to,
/// which was repeated `retry` times: a body that was written counts as
/// downloaded, with the ETag of its answer.
pub open spec fn is_attempt_result(
    hash_text: Seq<char>,
    conditional: bool,
    retry: nat,
    attempt: Attempt,
    result: Result<FinishedDownload, DownloadError>,
) -> bool {
    exists|etag: Option<String>|
        {
            &&& #[trigger] is_result(
                hash_text,
                conditional,
                retry,
                etag,
                attempt.last_event(),
                result,
            )
            &&& is_good_answer(attempt.answer) ==> is_header_etag(
                answer_etag(attempt.answer),
                optional_text(etag),
            )
        }
}

/// The retries that a result reports, where the download was not cancelled.
pub open spec fn reported_retries(result: Result<FinishedDownload, DownloadError>) -> Option<nat> {
    match result {
        Ok(done) => Some(done.retries_used as nat),
        Err(error) => match error.spec_retries() {
            Some(retries) => Some(retries as nat),
            None => None,
        },
    }
}

proof fn lemma_attempts_from(
    download: Download,
    attempts: Seq<Attempt>,
    result: Result<FinishedDownload, DownloadError>,
)
    requires
        makes_attempts(download, attempts, result),
        forall|i: int| 0 <= i < attempts.len() ==> (#[trigger] attempts[i]).is_valid(),
    ensures
        ({
            let conditional = download.spec_conditional();
            let max_retries = download.spec_max_retries() as nat;
            let start = download.spec_retry();
            let last = attempts.len() - 1;
            &&& forall|i: int|
                0 <= i < last ==> retries_after(
                    (#[trigger] attempts[i]).last_event(),
                    conditional,
                    (start + i) as nat,
                    max_retries,
                )
            &&& !retries_after(
                attempts[last].last_event(),
                conditional,
                (start + last) as nat,
                max_retries,
            )
            &&& is_attempt_result(
                download.spec_hash(),
                conditional,
                (start + last) as nat,
                attempts[last],
                result,
            )
        }),
    decreases attempts.len(),
{
    let attempt = attempts[0];
    if attempts.len() == 1 {
        let after = choose|after: Download| #[trigger]
            attempt.leads_to(download, after, DownloadAction::Finish(result));
        if is_good_answer(attempt.answer) {
            let answered = choose|answered: Download|
                download.advances(attempt.answer, answered, DownloadAction::WriteBody)
                    && #[trigger] answered.advances(
                    attempt.body,
                    after,
                    DownloadAction::Finish(result),
                );
            assert(answered.finishes_with(attempt.body, result));
        } else {
            assert(download.finishes_with(attempt.answer, result));
        }
    } else {
        let (after, next) = choose|after: Download, next: Download|
            attempt.leads_to(download, after, DownloadAction::Retry)
                && #[trigger] after.goes_on_with(next) && makes_attempts(
                next,
                attempts.drop_first(),
                result,
            );
        if is_good_answer(attempt.answer) {
            let answered = choose|answered: Download|
                download.advances(attempt.answer, answered, DownloadAction::WriteBody)
                    && #[trigger] answered.advances(attempt.body, after, DownloadAction::Retry);
            assert(answered.same_but_etag(download));
        }
        let rest = attempts.drop_first();
        lemma_attempts_from(next, rest, result);
        assert forall|i: int| 0 <= i < attempts.len() - 1 implies retries_after(
            (#[trigger] attempts[i]).last_event(),
            download.spec_conditional(),
            (download.spec_retry() + i) as nat,
            download.spec_max_retries() as nat,
        ) by {
            if i > 0 {
                assert(rest[i - 1] == attempts[i]);
            }
        }
        assert(rest[rest.len() - 1] == attempts[attempts.len() - 1]);
    }
}

/// A download as a whole. It repeats the request after every attempt but the
/// last one it makes, which is the first that does not call for another one or
/// the one numbered by the allowed retries, counted from zero. That attempt
/// gives the result, and its number, one less than the requests that were sent,
/// is what the result reports.
pub proof fn law_download_as_a_whole(
    download: Download,
    attempts: Seq<Attempt>,
    result: Result<FinishedDownload, DownloadError>,
)
    requires
        download.spec_retry() == 0,
        makes_attempts(download, attempts, result),
        forall|i: int| 0 <= i < attempts.len() ==> (#[trigger] attempts[i]).is_valid(),
    ensures
        ({
            let conditional = download.spec_conditional();
            let max_retries = download.spec_max_retries();
            let last = attempts.len() - 1;
            &&& 0 <= last <= max_retries
            &&& forall|i: int|
                0 <= i < last ==> calls_for_retry(
                    (#[trigger] attempts[i]).last_event(),
                    conditional,
                )
            &&& last == max_retries || !calls_for_retry(attempts[last].last_event(), conditional)
            &&& is_attempt_result(
                download.spec_hash(),
                conditional,
                last as nat,
                attempts[last],
                result,
            )
            &&& reported_retries(result) == Some(last as nat)
        }),
{
    lemma_attempts_from(download, attempts, result);
    let last = attempts.len() - 1;
    if last > 0 {
        assert(retries_after(
            attempts[last - 1].last_event(),
            download.spec_conditional(),
            (last - 1) as nat,
            download.spec_max_retries() as nat,
        ));
    }
}

/// A request is never repeated more often than the settings allow: events
/// that each led to another attempt are no more than the allowed retries.
pub proof fn law_retries_are_bounded(
    events: Seq<AttemptEvent>,
    conditional: bool,
    max_retries: nat,
)
    requires
        forall|i: int|
            0 <= i < events.len() ==> retries_after(
                #[trigger] events[i],
                conditional,
                i as nat,
                max_retries,
            ),
    ensures
        events.len() <= max_retries,
{
    if events.len() > 0 {
        assert(retries_after(
            events[events.len() - 1],
            conditional,
            (events.len() - 1) as nat,
            max_retries,
        ));
    }
}

/// A request that the service finds at fault is not repeated, unless it came
/// too soon. Every answer that is neither good, nor one that nothing has
/// changed to a conditional request, nor such a refusal, calls for another
/// attempt.
pub proof fn law_which_answers_are_retried(
    status_code: StatusCode,
    etag: Option<Vec<u8>>,
    conditional: bool,
)
    ensures
        ({
            let code = status_code.spec_code();
            let retried = calls_for_retry(
                AttemptEvent::Response { status_code, etag },
                conditional,
            );
            &&& 400 <= code < 500 && code != 429 ==> !retried
            &&& code == 429 || code >= 500 ==> retried
            &&& code == 304 ==> (retried <==> !conditional)
            &&& code == 200 ==> !retried
            &&& code < 400 && code != 200 && code != 304 ==> retried
        }),
{
}

/// A download that gives up after an event that calls for another attempt has
/// used all of its retries, and says so.
pub proof fn law_giving_up_uses_all_retries(
    download: Download,
    event: AttemptEvent,
    result: Result<FinishedDownload, DownloadError>,
)
    requires
        download.spec_retry() <= download.spec_max_retries(),
        calls_for_retry(event, download.spec_conditional()),
        !retries_after(
            event,
            download.spec_conditional(),
            download.spec_retry() as nat,
            download.spec_max_retries() as nat,
        ),
        download.finishes_with(event, result),
    ensures
        result matches Err(error) && error.spec_retries() == Some(download.spec_max_retries()),
{
}

/// A download that ends well has the ETag of the answer whose body was
/// written.
pub proof fn law_etag_is_of_the_written_answer(
    download: Download,
    answer: AttemptEvent,
    result: Result<FinishedDownload, DownloadError>,
)
    requires
        is_good_answer(answer),
        is_header_etag(answer_etag(answer), optional_text(download.spec_etag())),
        download.finishes_with(AttemptEvent::BodyWritten, result),
    ensures
        result matches Ok(done) && done.status matches DownloadStatus::Downloaded { etag }
            && is_header_etag(answer_etag(answer), optional_text(etag)),
{
}

/// Only a conditional request can find that nothing has changed.
pub proof fn law_unchanged_needs_a_condition(
    download: Download,
    event: AttemptEvent,
    result: Result<FinishedDownload, DownloadError>,
)
    requires
        download.finishes_with(event, result),
    ensures
        (result matches Ok(done) && done.status is NotModified) ==> download.spec_conditional(),
{
}

/// The time between attempts is never under a second nor over the longest
/// time, and does not shrink from one attempt to the next as long as 32 bits
/// hold the number of retries.
pub proof fn law_backoff_grows(earlier: nat, later: nat)
    requires
        earlier <= later < 0x1_0000_0000,
    ensures
        1 <= spec_backoff_delay(earlier) <= spec_backoff_delay(later) <= MAX_BACKOFF_SECS,
{
    vstd::arithmetic::power2::lemma_pow2_pos(earlier);
    if earlier < later {
        vstd::arithmetic::power2::lemma_pow2_strictly_increases(earlier, later);
    }
    assert(earlier % 0x1_0000_0000 == earlier);
    assert(later % 0x1_0000_0000 == later);
}

/// Whether an ETag is what a header says, character by character: there is one
/// exactly if every byte of the header is a visible ASCII character or a tab,
/// and then its characters are the bytes.
pub open spec fn reads_header(header: Option<Vec<u8>>, etag: Option<String>) -> bool {
    match header {
        Some(bytes) => if forall|i: int|
            0 <= i < bytes@.len() ==> (32 <= #[trigger] bytes@[i] <= 126 || bytes@[i] == 9) {
            &&& etag matches Some(text)
            &&& text@.len() == bytes@.len()
            &&& forall|i: int|
                0 <= i < bytes@.len() ==> #[trigger] text@[i] as int == bytes@[i] as int
        } else {
            etag is None
        },
        None => etag is None,
    }
}

/// An ETag of any length is taken from its header byte by byte. A header that
/// has a byte other than visible ASCII and tab gives none, and neither does a
/// missing header.
pub proof fn law_etag_is_the_header(header: Option<Vec<u8>>, etag: Option<String>)
    requires
        is_header_etag(optional_bytes(header), optional_text(etag)),
    ensures
        reads_header(header, etag),
        match (header, etag) {
            (Some(bytes), Some(text)) => {
                &&& text@.len() == bytes@.len()
                &&& forall|i: int|
                    0 <= i < bytes@.len() ==> #[trigger] text@[i] as int == bytes@[i] as int && (32
                        <= bytes@[i] <= 126 || bytes@[i] == 9)
            },
            (Some(bytes), None) => exists|i: int|
                0 <= i < bytes@.len() && !(32 <= #[trigger] bytes@[i] <= 126 || bytes@[i] == 9),
            (None, _) => etag is None,
        },
{
    if let Some(bytes) = header {
        let seen = bytes@;
        if forall|i: int|
            0 <= i < seen.len() ==> (32 <= #[trigger] seen[i] <= 126 || seen[i] == 9) {
            assert forall|i: int| 0 <= i < seen.len() implies is_visible_ascii(
                #[trigger] seen[i],
            ) by {}
            assert(etag->0@ == seen.map_values(|b: u8| b as char));
        } else {
            let i = choose|i: int|
                0 <= i < seen.len() && !(32 <= #[trigger] seen[i] <= 126 || seen[i] == 9);
            assert(!is_visible_ascii(seen[i]));
        }
    }
}

/// What each answer of the service leads to. A good one has its body written,
/// and its ETag is kept; that nothing has changed ends a conditional request;
/// a refusal, unless it is that the request came too soon, is an error of the
/// client and not repeated; every other answer leads to another attempt, and
/// after the last one to an error that names its code.
pub proof fn law_what_each_answer_leads_to(
    before: Download,
    status_code: StatusCode,
    etag: Option<Vec<u8>>,
    after: Download,
    action: DownloadAction,
)
    requires
        before.spec_retry() <= before.spec_max_retries(),
        before.advances(AttemptEvent::Response { status_code, etag }, after, action),
    ensures
        after.spec_hash() == before.spec_hash(),
        after.spec_conditional() == before.spec_conditional(),
        after.spec_max_retries() == before.spec_max_retries(),
        after.spec_retry() == before.spec_retry(),
        status_code.spec_code() != 200 ==> after.spec_etag() == before.spec_etag(),
        ({
            let code = status_code.spec_code();
            if code == 200 {
                action is WriteBody && reads_header(etag, after.spec_etag())
            } else if code == 304 && before.spec_conditional() {
                action matches DownloadAction::Finish(Ok(done)) && done.status is NotModified
                    && done.retries_used == before.spec_retry()
            } else if 400 <= code <= 499 && code != 429 {
                action matches DownloadAction::Finish(
                    Err(DownloadError::Client { hash, status_code: said, retries }),
                ) && hash@ == before.spec_hash() && said == status_code && retries
                    == before.spec_retry()
            } else if before.spec_retry() < before.spec_max_retries() {
                action is Retry
            } else {
                action matches DownloadAction::Finish(
                    Err(DownloadError::Http { hash, status_code: said, retries }),
                ) && hash@ == before.spec_hash() && said == status_code && retries
                    == before.spec_retry()
            }
        }),
{
    if status_code.spec_code() == 200 {
        law_etag_is_the_header(etag, after.spec_etag());
    }
}

/// What everything else that can happen in an attempt leads to. A body that was
/// written ends the download with the ETag that was kept. A body that could not
/// be read or written, and a request without an answer, lead to another attempt
/// and, after the last one, to an error that tells the reason; any other failure
/// to write is final.
pub proof fn law_what_other_events_lead_to(
    before: Download,
    event: AttemptEvent,
    after: Download,
    action: DownloadAction,
)
    requires
        before.spec_retry() <= before.spec_max_retries(),
        before.advances(event, after, action),
        !(event is Response),
    ensures
        after.spec_hash() == before.spec_hash(),
        after.spec_conditional() == before.spec_conditional(),
        after.spec_max_retries() == before.spec_max_retries(),
        after.spec_retry() == before.spec_retry(),
        after.spec_etag() == before.spec_etag(),
        ({
            let may_repeat = before.spec_retry() < before.spec_max_retries();
            match event {
                AttemptEvent::BodyWritten => action matches DownloadAction::Finish(Ok(done))
                    && done.retries_used == before.spec_retry() && done.status is Downloaded
                    && done.status->Downloaded_etag == before.spec_etag(),
                AttemptEvent::WriteFailed(error) => if error is ReadWrite && may_repeat {
                    action is Retry
                } else {
                    action matches DownloadAction::Finish(
                        Err(DownloadError::FileOperation { retries, source }),
                    ) && retries == before.spec_retry() && source == error
                },
                AttemptEvent::SendFailed { cause, error } => if may_repeat {
                    action is Retry
                } else {
                    action matches DownloadAction::Finish(
                        Err(DownloadError::Network { hash, error: text, retries }),
                    ) && hash@ == before.spec_hash() && retries == before.spec_retry() && (
                    cause is Some ==> text == cause->0) && (cause is None ==> text == error)
                },
                _ => true,
            }
        }),
{
}

/// The next attempt has the next number, and nothing else about the download is
/// different.
pub proof fn law_attempts_are_numbered(before: Download, next: Download)
    requires
        before.goes_on_with(next),
    ensures
        next.spec_retry() == before.spec_retry() + 1,
        next.spec_hash() == before.spec_hash(),
        next.spec_conditional() == before.spec_conditional(),
        next.spec_max_retries() == before.spec_max_retries(),
        next.spec_etag() == before.spec_etag(),
{
}

/// What the end of a download says about its last attempt, the one with number
/// `last`. It ends as downloaded exactly if the service answered with 200 and
/// the body was written, and then with the ETag of that answer; as unchanged
/// only if a conditional request was answered with 304; with an error of the
/// client exactly if the answer was a refusal.
pub proof fn law_end_tells_last_attempt(
    download: Download,
    attempts: Seq<Attempt>,
    result: Result<FinishedDownload, DownloadError>,
)
    requires
        download.spec_retry() == 0,
        makes_attempts(download, attempts, result),
        forall|i: int|
            0 <= i < attempts.len() ==> ((#[trigger] attempts[i]).answer is Response
                || attempts[i].answer is SendFailed) && (attempts[i].body is BodyWritten
                || attempts[i].body is WriteFailed),
    ensures
        attempts.len() > 0,
        ({
            let last = attempts.last();
            let code = last.answer->status_code.spec_code();
            let answered = last.answer is Response;
            &&& (result matches Ok(done) && done.status is Downloaded) <==> answered && code == 200
                && last.body is BodyWritten
            &&& result matches Ok(done) ==> done.retries_used == attempts.len() - 1 && (
            done.status matches DownloadStatus::Downloaded { etag } ==> reads_header(
                last.answer->Response_etag,
                etag,
            ))
            &&& (result matches Ok(done) && done.status is NotModified) <==> answered && code == 304
                && download.spec_conditional()
            &&& result is Err && result->Err_0 is Client <==> answered && 400 <= code <= 499 && code
                != 429
            &&& result matches Err(DownloadError::Client { hash, status_code, retries }) ==> hash@
                == download.spec_hash() && status_code.spec_code() == code && retries
                == attempts.len() - 1
            &&& result is Err && result->Err_0 is FileOperation <==> answered && code == 200
                && last.body is WriteFailed
            &&& result is Err && result->Err_0 is Network <==> !answered
            &&& !(result is Err && result->Err_0 is Cancelled)
        }),
{
    assert forall|i: int| 0 <= i < attempts.len() implies (#[trigger] attempts[i]).is_valid() by {}
    law_download_as_a_whole(download, attempts, result);
    let last = attempts.last();
    assert(last == attempts[attempts.len() - 1]);
    let etag = choose|etag: Option<String>|
        {
            &&& #[trigger] is_result(
                download.spec_hash(),
                download.spec_conditional(),
                (attempts.len() - 1) as nat,
                etag,
                last.last_event(),
                result,
            )
            &&& is_good_answer(last.answer) ==> is_header_etag(
                answer_etag(last.answer),
                optional_text(etag),
            )
        };
    if is_good_answer(last.answer) {
        law_etag_is_the_header(last.answer->Response_etag, etag);
    }
}

/// The longest time to wait starts at a second, doubles with each retry, and
/// stops at a minute. The number of retries is taken as far as 32 bits hold it.
pub proof fn law_backoff_doubles_up_to_a_minute(retry: nat)
    ensures
        spec_backoff_delay(0) == 1,
        retry + 1 < 0x1_0000_0000 ==> spec_backoff_delay(retry + 1) == (if 2 * spec_backoff_delay(
            retry,
        ) < 60 {
            2 * spec_backoff_delay(retry)
        } else {
            60
        }),
        spec_backoff_delay(retry + 0x1_0000_0000) == spec_backoff_delay(retry),
        MAX_BACKOFF_SECS == 60,
{
    vstd::arithmetic::power2::lemma2_to64();
    assert(0nat % 0x1_0000_0000 == 0);
    vstd::arithmetic::power2::lemma_pow2_pos(retry);
    if retry + 1 < 0x1_0000_0000 {
        vstd::arithmetic::power2::lemma_pow2_unfold(retry + 1);
        assert(retry % 0x1_0000_0000 == retry);
        assert((retry + 1) % 0x1_0000_0000 == retry + 1);
    }
    assert((retry + 0x1_0000_0000) % 0x1_0000_0000 == retry % 0x1_0000_0000);
}

/// What a user reads of each error: which range it is about, what went wrong,
/// and after how many retries.
pub proof fn law_error_messages(error: DownloadError)
    ensures
        match error {
            DownloadError::FileOperation { retries, source } => {
                &&& error.spec_message() == "File operation failed after "@ + decimal(
                    retries as nat,
                ) + " retries: "@ + source.spec_message()
                &&& error.spec_retries() == Some(retries)
            },
            DownloadError::Cancelled { hash } => {
                &&& error.spec_message() == "Downloads for hash "@ + hash@ + " cancelled"@
                &&& error.spec_retries() is None
            },
            DownloadError::Client { hash, status_code, retries } => {
                &&& error.spec_message() == "Client error "@ + status_display(
                    status_code.spec_code(),
                ) + " for hash "@ + hash@ + " after "@ + decimal(retries as nat)
                    + " retries: not retrying"@
                &&& error.spec_retries() == Some(retries)
            },
            DownloadError::Http { hash, status_code, retries } => {
                &&& error.spec_message() == "HTTP error "@ + status_display(status_code.spec_code())
                    + " for hash "@ + hash@ + ": failed after "@ + decimal(retries as nat)
                    + " retries"@
                &&& error.spec_retries() == Some(retries)
            },
            DownloadError::Network { hash, error: text, retries } => {
                &&& error.spec_message() == "Network error "@ + text@ + " for hash "@ + hash@
                    + ": failed after "@ + decimal(retries as nat) + " retries"@
                &&& error.spec_retries() == Some(retries)
            },
        },
{
}

}
