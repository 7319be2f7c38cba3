//! A run over all ranges: their names, and what becomes of each result.

use std::path::PathBuf;
use vstd::arithmetic::div_mod::lemma_small_mod;
use vstd::arithmetic::power::pow;
use vstd::prelude::*;

use crate::args::{Args, HashMode};
use crate::download::{spec_conditional_etag, DownloadError, DownloadStatus, FinishedDownload};
use crate::etag::{
    document_etags, law_saved_etags_load_back, lookup, with_deltas, CacheDocument, ETagCache,
    ETagDeltas,
};
use crate::outside::{
    is_file_name, is_plain, is_plain_char, join_path, path_joined, path_parts, takes_names,
};
use crate::stats::{
    counted, holds_text, law_outcomes_add_up, law_retries_agree, law_snapshot_tells_counts,
    law_summary_tells_snapshot, lemma_one_more, summary, RunCounts, RunStats, RunStatsSnapshot,
    SummaryFigures,
};
use crate::text::{
    base16_value, decimal, digit_char, digits, hex_padded, hex_text, law_digits_are_read_in_turn,
    law_hexadecimal_reads_back,
};
use crate::writer::lemma_plain_is_file_name;

verus! {

/// The name of the file of the ETag cache.
pub const ETAG_CACHE_FILENAME: &'static str = ".etag_cache.json";

/// The address of the service, which the name of a range goes behind.
pub const HIBP_BASE_URL: &'static str = "https://api.pwnedpasswords.com/range/";

/// The number of the last range. The ranges are all prefixes of five
/// hexadecimal digits.
pub const HASH_MAX: u64 = 0xFFFFF;

/// The file of the ETag cache: in the output directory.
pub fn etag_cache_path(args: &Args) -> (path: PathBuf)
    ensures
        path == path_joined(args.output_directory, ETAG_CACHE_FILENAME@),
        takes_names(path_parts(args.output_directory)) ==> path_parts(path) == path_parts(
            args.output_directory,
        ).push(ETAG_CACHE_FILENAME@),
{
    proof {
        reveal_strlit(".etag_cache.json");
        let name = ETAG_CACHE_FILENAME@;
        assert(!name.contains('/') && !name.contains('\\') && !name.contains(':'));
        assert(name.len() > 2);
        assert(is_file_name(name));
    }
    join_path(&args.output_directory, ETAG_CACHE_FILENAME)
}

/// The name of a range: its number in upper case hexadecimal, with five digits
/// at least.
pub open spec fn spec_range_name(number: nat) -> Seq<char> {
    hex_padded(number, 5)
}

/// The name of a range.
pub fn range_name(number: u64) -> (name: String)
    ensures
        name@ == spec_range_name(number as nat),
{
    hex_text(number, 5)
}

/// The last hexadecimal digits of a number.
spec fn last_digits(n: nat, count: nat) -> Seq<char>
    decreases count,
{
    if count == 0 {
        Seq::empty()
    } else {
        last_digits(n / 16, (count - 1) as nat).push(digit_char(n % 16))
    }
}

proof fn lemma_last_digits_of_zero(count: nat)
    ensures
        last_digits(0, count) == Seq::new(count, |i: int| '0'),
    decreases count,
{
    if count > 0 {
        lemma_last_digits_of_zero((count - 1) as nat);
        assert(last_digits(0, count) =~= Seq::new(count, |i: int| '0'));
    }
}

proof fn lemma_padded_is_last_digits(n: nat, width: nat)
    requires
        width > 0,
        n < pow(16, width),
    ensures
        hex_padded(n, width) == last_digits(n, width),
    decreases width,
{
    let rest = (width - 1) as nat;
    vstd::arithmetic::power::lemma_pow1(16);
    reveal(pow);
    if n < 16 {
        lemma_last_digits_of_zero(rest);
        assert(digits(n, 16) == seq![digit_char(n)]);
        assert(hex_padded(n, width) =~= last_digits(n, width));
    } else {
        assert(rest > 0);
        assert(n / 16 < pow(16, rest));
        lemma_padded_is_last_digits(n / 16, rest);
        assert(hex_padded(n, width) =~= hex_padded(n / 16, rest).push(digit_char(n % 16)));
    }
}

proof fn lemma_last_digits_tell_apart(a: nat, b: nat, count: nat)
    requires
        a < pow(16, count),
        b < pow(16, count),
        last_digits(a, count) == last_digits(b, count),
    ensures
        a == b,
    decreases count,
{
    reveal(pow);
    if count > 0 {
        let rest = (count - 1) as nat;
        let (of_a, of_b) = (last_digits(a, count), last_digits(b, count));
        assert(of_a.drop_last() =~= last_digits(a / 16, rest));
        assert(of_b.drop_last() =~= last_digits(b / 16, rest));
        assert(of_a.last() == digit_char(a % 16));
        assert(of_b.last() == digit_char(b % 16));
        lemma_last_digits_tell_apart(a / 16, b / 16, rest);
    }
}

proof fn lemma_last_digits_are_plain(n: nat, count: nat)
    ensures
        last_digits(n, count).len() == count,
        is_plain(last_digits(n, count)),
    decreases count,
{
    if count > 0 {
        lemma_last_digits_are_plain(n / 16, (count - 1) as nat);
        assert(is_plain_char(digit_char(n % 16)));
    }
}

/// The name of every range has exactly five digits, is fit for a file, and is
/// the name of no other range.
pub proof fn law_range_names(number: nat, other: nat)
    requires
        number <= HASH_MAX,
        other <= HASH_MAX,
    ensures
        spec_range_name(number).len() == 5,
        is_plain(spec_range_name(number)),
        is_file_name(spec_range_name(number)),
        spec_range_name(number) == spec_range_name(other) ==> number == other,
{
    assert(pow(16, 5) == 0x100000) by {
        reveal(pow);
        reveal_with_fuel(pow, 6);
    }
    lemma_padded_is_last_digits(number, 5);
    lemma_padded_is_last_digits(other, 5);
    lemma_last_digits_are_plain(number, 5);
    lemma_plain_is_file_name(spec_range_name(number));
    if spec_range_name(number) == spec_range_name(other) {
        lemma_last_digits_tell_apart(number, other, 5);
    }
}

/// What came of the download of a range.
pub type RangeResult = Result<FinishedDownload, DownloadError>;

/// What a run has come to.
#[verifier::ext_equal]
pub struct RunState {
    /// The counters.
    pub counts: RunCounts,
    /// The ranges with a new ETag.
    pub updates: Map<Seq<char>, String>,
    /// The ranges that no ETag is kept of.
    pub removals: Set<Seq<char>>,
    /// Whether a range failed.
    pub had_errors: bool,
}

/// Whether a result is an error other than that the run was cancelled.
pub open spec fn is_failure(result: RangeResult) -> bool {
    result matches Err(error) && !(error is Cancelled)
}

impl RunState {
    /// A run that has not begun.
    pub open spec fn initial(total_targets: u64) -> RunState {
        RunState {
            counts: RunCounts::initial(total_targets),
            updates: Map::empty(),
            removals: Set::empty(),
            had_errors: false,
        }
    }

    /// The run after one more result. A new ETag is to be kept. The old one is
    /// to be forgotten where there is no new one, and where the file may not be
    /// what it was.
    pub open spec fn with_result(self, hash: Seq<char>, result: RangeResult) -> RunState {
        match result {
            Ok(done) => {
                let counts = self.counts.with_retries(done.retries_used);
                match done.status {
                    DownloadStatus::Downloaded { etag: Some(etag) } => RunState {
                        counts: counts.with_downloaded(),
                        updates: self.updates.insert(hash, etag),
                        ..self
                    },
                    DownloadStatus::Downloaded { etag: None } => RunState {
                        counts: counts.with_downloaded(),
                        removals: self.removals.insert(hash),
                        ..self
                    },
                    DownloadStatus::NotModified => RunState {
                        counts: counts.with_not_modified(),
                        ..self
                    },
                }
            },
            Err(error) => match error.spec_retries() {
                Some(retries) => RunState {
                    counts: self.counts.with_retries(retries as u64).with_error(error),
                    removals: if error is FileOperation {
                        self.removals.insert(hash)
                    } else {
                        self.removals
                    },
                    had_errors: true,
                    ..self
                },
                None => RunState { counts: self.counts.with_cancelled(), ..self },
            },
        }
    }

    /// The run after a number of results.
    pub open spec fn with_results(self, results: Seq<(Seq<char>, RangeResult)>) -> RunState
        decreases results.len(),
    {
        if results.len() == 0 {
            self
        } else {
            let (hash, result) = results.last();
            self.with_results(results.drop_last()).with_result(hash, result)
        }
    }
}

/// A run that is under way.
#[derive(Debug)]
pub struct Run {
    /// The counters.
    pub stats: RunStats,
    /// The changes to make to the ETag cache.
    pub deltas: ETagDeltas,
    /// Whether a range failed.
    pub had_errors: bool,
}

impl View for Run {
    type V = RunState;

    open spec fn view(&self) -> RunState {
        RunState {
            counts: self.stats@,
            updates: self.deltas.updates@,
            removals: self.deltas.removals@,
            had_errors: self.had_errors,
        }
    }
}

impl Run {
    /// Starts a run over a number of ranges.
    pub fn new(total_targets: u64) -> (run: Self)
        ensures
            run@ == RunState::initial(total_targets),
    {
        Run { stats: RunStats::new(total_targets), deltas: ETagDeltas::default(), had_errors: false }
    }

    /// Takes note of what came of the download of a range. Returns the message
    /// to log, if the range failed.
    pub fn handle_result(&mut self, hash: String, result: RangeResult) -> (message: Option<String>)
        ensures
            final(self)@ == old(self)@.with_result(hash@, result),
            final(self).stats.spec_started_at() == old(self).stats.spec_started_at(),
            message is Some <==> is_failure(result),
            message matches Some(text) ==> text@ == result->Err_0.spec_message(),
    {
        match result {
            Ok(done) => {
                self.stats.record_retries(done.retries_used);
                match done.status {
                    DownloadStatus::Downloaded { etag: Some(etag) } => {
                        self.stats.record_downloaded();
                        self.deltas.updates.insert(hash, etag);
                    },
                    DownloadStatus::Downloaded { etag: None } => {
                        self.stats.record_downloaded();
                        self.deltas.removals.insert(hash);
                    },
                    DownloadStatus::NotModified => {
                        self.stats.record_not_modified();
                    },
                }
                None
            },
            Err(error) => match error.retries() {
                Some(retries) => {
                    self.had_errors = true;
                    self.stats.record_retries(retries as u64);
                    self.stats.record_error(&error);
                    let message = error.message();
                    if let DownloadError::FileOperation { .. } = error {
                        self.deltas.removals.insert(hash);
                    }
                    Some(message)
                },
                None => {
                    self.stats.record_cancelled();
                    None
                },
            },
        }
    }

    /// Whether the program reports that the run did not do all of its work.
    pub fn is_incomplete(&self, cancelled: bool) -> (incomplete: bool)
        ensures
            incomplete == (cancelled || self@.had_errors),
    {
        cancelled || self.had_errors
    }
}

/// The ETag to keep of a range after a result, for the one that was kept
/// before.
pub open spec fn etag_after(before: Option<String>, result: RangeResult) -> Option<String> {
    match result {
        Ok(done) => match done.status {
            DownloadStatus::Downloaded { etag } => etag,
            DownloadStatus::NotModified => before,
        },
        Err(error) => if error is FileOperation {
            None
        } else {
            before
        },
    }
}

/// Whether no range has more than one result.
pub open spec fn ranges_differ(results: Seq<(Seq<char>, RangeResult)>) -> bool {
    forall|i: int, j: int|
        0 <= i < j < results.len() ==> (#[trigger] results[i]).0 != (#[trigger] results[j]).0
}

/// Whether a range has a result.
pub open spec fn has_result(results: Seq<(Seq<char>, RangeResult)>, hash: Seq<char>) -> bool {
    exists|i: int| 0 <= i < results.len() && (#[trigger] results[i]).0 == hash
}

/// The ETag cache after a run. A range that was written has the new ETag, or
/// none if there is no new one; one whose file could not be written has none; a
/// range that had not changed, that the service did not give out, or that the
/// run did not come to keeps what it had.
pub proof fn law_cache_follows_results(
    cached: Map<Seq<char>, String>,
    total_targets: u64,
    results: Seq<(Seq<char>, RangeResult)>,
)
    requires
        ranges_differ(results),
    ensures
        ({
            let end = RunState::initial(total_targets).with_results(results);
            let after = with_deltas(cached, end.updates, end.removals);
            &&& forall|i: int|
                0 <= i < results.len() ==> lookup(after, (#[trigger] results[i]).0) == etag_after(
                    lookup(cached, results[i].0),
                    results[i].1,
                )
            &&& forall|hash: Seq<char>|
                !has_result(results, hash) ==> #[trigger] lookup(after, hash) == lookup(cached, hash)
        }),
{
    lemma_deltas_follow_results(cached, total_targets, results);
}

proof fn lemma_deltas_follow_results(
    cached: Map<Seq<char>, String>,
    total_targets: u64,
    results: Seq<(Seq<char>, RangeResult)>,
)
    requires
        ranges_differ(results),
    ensures
        ({
            let end = RunState::initial(total_targets).with_results(results);
            let after = with_deltas(cached, end.updates, end.removals);
            &&& forall|i: int|
                0 <= i < results.len() ==> lookup(after, (#[trigger] results[i]).0) == etag_after(
                    lookup(cached, results[i].0),
                    results[i].1,
                )
            &&& forall|hash: Seq<char>|
                !has_result(results, hash) ==> !#[trigger] end.updates.contains_key(hash)
            &&& forall|hash: Seq<char>|
                !has_result(results, hash) ==> !#[trigger] end.removals.contains(hash)
        }),
    decreases results.len(),
{
    if results.len() > 0 {
        let earlier = results.drop_last();
        let (hash, result) = results.last();
        assert forall|i: int, j: int| 0 <= i < j < earlier.len() implies (
        #[trigger] earlier[i]).0 != (#[trigger] earlier[j]).0 by {
            assert(results[i].0 != results[j].0);
        }
        lemma_deltas_follow_results(cached, total_targets, earlier);
        let before = RunState::initial(total_targets).with_results(earlier);
        let end = before.with_result(hash, result);
        let after_earlier = with_deltas(cached, before.updates, before.removals);
        let after = with_deltas(cached, end.updates, end.removals);
        assert(!has_result(earlier, hash));
        assert forall|i: int| 0 <= i < results.len() implies lookup(
            after,
            (#[trigger] results[i]).0,
        ) == etag_after(lookup(cached, results[i].0), results[i].1) by {
            if i < earlier.len() {
                assert(earlier[i] == results[i]);
                assert(results[i].0 != results[results.len() - 1].0);
                assert(lookup(after, results[i].0) == lookup(after_earlier, results[i].0));
            }
        }
        assert forall|other: Seq<char>| !has_result(results, other) implies !(
        #[trigger] end.updates.contains_key(other)) && !end.removals.contains(other) by {
            assert(results[results.len() - 1].0 != other);
            assert(!has_result(earlier, other)) by {
                if has_result(earlier, other) {
                    let i = choose|i: int|
                        0 <= i < earlier.len() && (#[trigger] earlier[i]).0 == other;
                    assert(results[i].0 == other);
                }
            }
            assert(!before.updates.contains_key(other));
            assert(!before.removals.contains(other));
        }
        assert forall|other: Seq<char>| !has_result(results, other) implies !(
        #[trigger] end.removals.contains(other)) by {
            assert(!end.updates.contains_key(other));
        }
    }
}

/// What a run saves, a later incremental run of the same mode goes by. It asks
/// for a range that was written, if its file is there or need not be, only in
/// case it has changed since; it asks for a range without an ETag, and for one
/// whose file could not be written, in any case. A run of the other mode gets
/// nothing of what was saved.
pub proof fn law_next_run_goes_by_results(
    before: ETagCache,
    after: ETagCache,
    document: CacheDocument,
    total_targets: u64,
    results: Seq<(Seq<char>, RangeResult)>,
    i: int,
    ignore_missing_hash_file: bool,
    file_exists: bool,
    mode: HashMode,
)
    requires
        ranges_differ(results),
        0 <= i < results.len(),
        ({
            let end = RunState::initial(total_targets).with_results(results);
            after.etags@ == with_deltas(before.etags@, end.updates, end.removals)
        }),
        after.is_described_by(document),
    ensures
        ({
            let (hash, result) = results[i];
            match document_etags(document, mode) {
                Some(saved) => {
                    let etag = spec_conditional_etag(
                        true,
                        ignore_missing_hash_file,
                        file_exists,
                        saved,
                        hash,
                    );
                    &&& mode == after.mode
                    &&& etag == (if ignore_missing_hash_file || file_exists {
                        etag_after(lookup(before.etags@, hash), result)
                    } else {
                        None
                    })
                },
                None => mode != after.mode,
            }
        }),
{
    law_cache_follows_results(before.etags@, total_targets, results);
    law_saved_etags_load_back(after, document, mode);
}

/// How many times the request for a range was repeated, by its result.
pub open spec fn retries_of(result: RangeResult) -> nat {
    match result {
        Ok(done) => done.retries_used as nat,
        Err(error) => match error.spec_retries() {
            Some(retries) => retries as nat,
            None => 0,
        },
    }
}

/// How many times requests were repeated, by their results.
pub open spec fn retries_of_all(results: Seq<(Seq<char>, RangeResult)>) -> nat
    decreases results.len(),
{
    if results.len() == 0 {
        0
    } else {
        retries_of_all(results.drop_last()) + retries_of(results.last().1)
    }
}

proof fn lemma_result_retries(before: RunState, hash: Seq<char>, result: RangeResult)
    requires
        before.counts.retries_agree(),
        before.counts.total_retries + retries_of(result) <= u64::MAX,
    ensures
        ({
            let end = before.with_result(hash, result);
            &&& end.counts.total_retries == before.counts.total_retries + retries_of(result)
            &&& end.counts.retries_agree()
        }),
{
    let retries = retries_of(result) as u64;
    let error = DownloadError::Cancelled { hash: arbitrary() };
    law_retries_agree(before.counts, before.counts.total_targets, error, retries);
    lemma_small_mod(
        (before.counts.total_retries + retries) as nat,
        0x1_0000_0000_0000_0000,
    );
    let counts = before.counts.with_retries(retries);
    let end = before.with_result(hash, result).counts;
    if result is Err && result->Err_0 is Cancelled {
        assert(end.total_retries == before.counts.total_retries);
        assert(end.retried_requests == before.counts.retried_requests);
    } else {
        assert(end.total_retries == counts.total_retries);
        assert(end.retried_requests == counts.retried_requests);
    }
}

/// A run counts every retry that its results report. As long as they can be
/// counted, no more requests were repeated than there were retries, and there
/// are some of the one exactly if there are some of the other.
pub proof fn law_retries_are_counted(total_targets: u64, results: Seq<(Seq<char>, RangeResult)>)
    requires
        retries_of_all(results) <= u64::MAX,
    ensures
        ({
            let end = RunState::initial(total_targets).with_results(results);
            &&& end.counts.total_retries == retries_of_all(results)
            &&& end.counts.retries_agree()
        }),
    decreases results.len(),
{
    if results.len() > 0 {
        let (hash, result) = results.last();
        law_retries_are_counted(total_targets, results.drop_last());
        let before = RunState::initial(total_targets).with_results(results.drop_last());
        lemma_result_retries(before, hash, result);
    }
}

/// Whether every range that was dealt with is counted under one outcome, kept
/// folded.
#[verifier::opaque]
spec fn adds_up(counts: RunCounts) -> bool {
    counts.is_balanced()
}

proof fn lemma_outcomes_add_up(counts: RunCounts, error: DownloadError, retries_used: u64)
    requires
        adds_up(counts),
    ensures
        adds_up(counts.with_downloaded()),
        adds_up(counts.with_not_modified()),
        adds_up(counts.with_cancelled()),
        adds_up(counts.with_error(error)),
        adds_up(counts.with_retries(retries_used)),
{
    reveal(adds_up);
    law_outcomes_add_up(counts, counts.total_targets, error, retries_used);
}

proof fn lemma_result_is_counted(before: RunState, hash: Seq<char>, result: RangeResult)
    requires
        adds_up(before.counts),
    ensures
        ({
            let end = before.with_result(hash, result);
            &&& adds_up(end.counts)
            &&& end.counts.processed == counted(before.counts.processed, 1)
            &&& end.counts.total_targets == before.counts.total_targets
            &&& end.had_errors == (before.had_errors || is_failure(result))
        }),
{
    match result {
        Ok(done) => {
            let error = DownloadError::Cancelled { hash: arbitrary() };
            lemma_outcomes_add_up(before.counts, error, done.retries_used);
            lemma_outcomes_add_up(before.counts.with_retries(done.retries_used), error, 0);
        },
        Err(error) => {
            let retries: u64 = match error.spec_retries() {
                Some(retries) => retries as u64,
                None => 0,
            };
            lemma_outcomes_add_up(before.counts, error, retries);
            lemma_outcomes_add_up(before.counts.with_retries(retries), error, 0);
        },
    }
}

/// Whether a run has errors exactly if one of its results is an error other
/// than that it was cancelled.
spec fn errors_are_seen(had_errors: bool, results: Seq<(Seq<char>, RangeResult)>) -> bool {
    had_errors <==> exists|i: int|
        0 <= i < results.len() && is_failure((#[trigger] results[i]).1)
}

proof fn lemma_errors_are_seen(had_errors: bool, results: Seq<(Seq<char>, RangeResult)>)
    requires
        results.len() > 0,
        errors_are_seen(had_errors, results.drop_last()),
    ensures
        errors_are_seen(had_errors || is_failure(results.last().1), results),
{
    let earlier = results.drop_last();
    if had_errors {
        let i = choose|i: int| 0 <= i < earlier.len() && is_failure((#[trigger] earlier[i]).1);
        assert(is_failure(results[i].1));
    }
    if is_failure(results.last().1) {
        assert(is_failure(results[results.len() - 1].1));
    }
    if exists|i: int| 0 <= i < results.len() && is_failure((#[trigger] results[i]).1) {
        let i = choose|i: int| 0 <= i < results.len() && is_failure((#[trigger] results[i]).1);
        if i < earlier.len() {
            assert(is_failure(earlier[i].1));
        }
    }
}

proof fn lemma_initial_adds_up(total_targets: u64)
    ensures
        adds_up(RunCounts::initial(total_targets)),
{
    reveal(adds_up);
}

proof fn lemma_next_count(processed: u64, results: nat)
    requires
        processed == results % 0x1_0000_0000_0000_0000,
    ensures
        counted(processed, 1) == (results + 1) % 0x1_0000_0000_0000_0000,
{
    lemma_one_more(processed, 0, results as int);
}

proof fn lemma_results_are_counted(
    total_targets: u64,
    results: Seq<(Seq<char>, RangeResult)>,
)
    ensures
        ({
            let end = RunState::initial(total_targets).with_results(results);
            &&& adds_up(end.counts)
            &&& end.counts.processed == results.len() % 0x1_0000_0000_0000_0000
            &&& end.counts.total_targets == total_targets
            &&& errors_are_seen(end.had_errors, results)
        }),
    decreases results.len(),
{
    if results.len() > 0 {
        let earlier = results.drop_last();
        let (hash, result) = results.last();
        lemma_results_are_counted(total_targets, earlier);
        let before = RunState::initial(total_targets).with_results(earlier);
        lemma_result_is_counted(before, hash, result);
        lemma_errors_are_seen(before.had_errors, results);
        lemma_next_count(before.counts.processed, earlier.len());
    } else {
        assert(adds_up(RunCounts::initial(total_targets))) by {
            lemma_initial_adds_up(total_targets);
        }
    }
}

/// Every result counts as one range that was dealt with, every range that was
/// dealt with has one outcome, and a run has errors exactly if one of its
/// results is an error other than that it was cancelled.
pub proof fn law_results_are_counted(total_targets: u64, results: Seq<(Seq<char>, RangeResult)>)
    ensures
        ({
            let end = RunState::initial(total_targets).with_results(results);
            &&& end.counts.processed == results.len() % 0x1_0000_0000_0000_0000
            &&& end.counts.total_targets == total_targets
            &&& end.counts.is_balanced()
            &&& end.had_errors <==> exists|i: int|
                0 <= i < results.len() && is_failure((#[trigger] results[i]).1)
        }),
{
    lemma_results_are_counted(total_targets, results);
    reveal(adds_up);
}

/// The name of a range, read as a hexadecimal number, is its number. It holds
/// the digits 0 to 9 and A to F alone: five of them for every range, and of a
/// larger number as many as it has.
pub proof fn law_range_name_is_its_number(number: nat)
    ensures
        forall|i: int|
            0 <= i < spec_range_name(number).len() ==> ('0' <= #[trigger] spec_range_name(
                number,
            )[i] <= '9' || 'A' <= spec_range_name(number)[i] <= 'F'),
        base16_value(spec_range_name(number)) == number,
        number <= 0xFFFFF ==> spec_range_name(number).len() == 5,
        number > 0xFFFFF ==> spec_range_name(number).len() > 5 && spec_range_name(number)[0] != '0',
        HASH_MAX == 0xFFFFF,
{
    law_hexadecimal_reads_back(number, 5);
    assert(pow(16, 5) == 0x100000) by {
        reveal(pow);
        reveal_with_fuel(pow, 6);
    }
    if number <= 0xFFFFF {
        lemma_padded_is_last_digits(number, 5);
        lemma_last_digits_are_plain(number, 5);
    } else {
        let name = spec_range_name(number);
        if name.len() == 5 {
            lemma_base16_bound(name);
        }
    }
}

proof fn lemma_base16_bound(run: Seq<char>)
    requires
        forall|i: int|
            0 <= i < run.len() ==> ('0' <= #[trigger] run[i] <= '9' || 'A' <= run[i] <= 'F'),
    ensures
        base16_value(run) < pow(16, run.len()),
    decreases run.len(),
{
    reveal(pow);
    if run.len() > 0 {
        let front = run.drop_last();
        assert forall|i: int| 0 <= i < front.len() implies ('0' <= #[trigger] front[i] <= '9' || 'A'
            <= front[i] <= 'F') by {
            assert(front[i] == run[i]);
        }
        lemma_base16_bound(front);
        law_digits_are_read_in_turn(front, run.last());
        assert(run =~= front.push(run.last()));
        assert('0' <= run[run.len() - 1] <= '9' || 'A' <= run[run.len() - 1] <= 'F');
        assert(pow(16, run.len()) == 16 * pow(16, front.len()));
    }
}

proof fn lemma_last_digits_without_first(n: nat, count: nat)
    ensures
        last_digits(n, count + 1).skip(1) == last_digits(n, count),
        last_digits(n, count).len() == count,
    decreases count,
{
    lemma_last_digits_are_plain(n, count);
    lemma_last_digits_are_plain(n, count + 1);
    if count > 0 {
        lemma_last_digits_without_first(n / 16, (count - 1) as nat);
        lemma_last_digits_are_plain(n / 16, count);
        assert(last_digits(n, count + 1) == last_digits(n / 16, count).push(digit_char(n % 16)));
        assert(last_digits(n, count + 1).skip(1) =~= last_digits(n / 16, count).skip(1).push(
            digit_char(n % 16),
        ));
    } else {
        assert(last_digits(n, 1).skip(1) =~= Seq::empty());
    }
}

/// How the names of ranges follow from each other. The first is all zeros. The
/// sixteen ranges from sixteen times a number on have the name of that number
/// without its first digit, and behind it the digits 0 to F in turn.
pub proof fn law_range_names_follow(number: nat, digit: nat)
    requires
        number <= 0xFFFF,
        digit < 16,
    ensures
        spec_range_name(0) == seq!['0', '0', '0', '0', '0'],
        spec_range_name(16 * number + digit) == spec_range_name(number).skip(1).push(
            seq![
                '0', '1', '2', '3', '4', '5', '6', '7', '8', '9', 'A', 'B', 'C', 'D', 'E', 'F',
            ][digit as int],
        ),
{
    let whole = 16 * number + digit;
    assert(pow(16, 5) == 0x100000) by {
        reveal(pow);
        reveal_with_fuel(pow, 6);
    }
    lemma_padded_is_last_digits(0, 5);
    lemma_last_digits_of_zero(5);
    assert(spec_range_name(0) =~= seq!['0', '0', '0', '0', '0']);
    lemma_padded_is_last_digits(number, 5);
    lemma_padded_is_last_digits(whole, 5);
    lemma_last_digits_without_first(number, 4);
    assert(whole / 16 == number && whole % 16 == digit);
}

/// What one result does to a run, whatever came before. A range that was written
/// has its new ETag kept or, without one, its old one forgotten; one that had not
/// changed, was cancelled or was not given out has nothing done to its ETag; one
/// whose file failed has it forgotten. A cancelled range is no failure; every
/// other error is one, and its retries count.
pub proof fn law_what_a_result_does(before: RunState, hash: Seq<char>, result: RangeResult)
    ensures
        ({
            let end = before.with_result(hash, result);
            match result {
                Ok(done) => {
                    &&& end.had_errors == before.had_errors
                    &&& !is_failure(result)
                    &&& match done.status {
                        DownloadStatus::Downloaded { etag } => {
                            &&& end.counts == before.counts.with_retries(
                                done.retries_used,
                            ).with_downloaded()
                            &&& etag is Some ==> end.updates == before.updates.insert(hash, etag->0)
                                && end.removals == before.removals
                            &&& etag is None ==> end.updates == before.updates && end.removals
                                == before.removals.insert(hash)
                        },
                        DownloadStatus::NotModified => {
                            &&& end.counts == before.counts.with_retries(
                                done.retries_used,
                            ).with_not_modified()
                            &&& end.updates == before.updates
                            &&& end.removals == before.removals
                        },
                    }
                },
                Err(DownloadError::Cancelled { .. }) => {
                    &&& end.had_errors == before.had_errors
                    &&& !is_failure(result)
                    &&& end.counts == before.counts.with_cancelled()
                    &&& end.updates == before.updates
                    &&& end.removals == before.removals
                },
                Err(error) => {
                    &&& end.had_errors
                    &&& is_failure(result)
                    &&& end.updates == before.updates
                    &&& error is FileOperation ==> end.removals == before.removals.insert(hash)
                    &&& !(error is FileOperation) ==> end.removals == before.removals
                    &&& error matches DownloadError::FileOperation { retries, .. } ==> end.counts
                        == before.counts.with_retries(retries as u64).with_error(error)
                    &&& error matches DownloadError::Client { retries, .. } ==> end.counts
                        == before.counts.with_retries(retries as u64).with_error(error)
                    &&& error matches DownloadError::Http { retries, .. } ==> end.counts
                        == before.counts.with_retries(retries as u64).with_error(error)
                    &&& error matches DownloadError::Network { retries, .. } ==> end.counts
                        == before.counts.with_retries(retries as u64).with_error(error)
                },
            }
        }),
{
}

/// A run starts with nothing counted and nothing to change, and takes results one
/// after the other.
pub proof fn law_results_are_taken_in_turn(
    total_targets: u64,
    state: RunState,
    results: Seq<(Seq<char>, RangeResult)>,
    hash: Seq<char>,
    result: RangeResult,
)
    ensures
        RunState::initial(total_targets).counts == RunCounts::initial(total_targets),
        RunState::initial(total_targets).updates == Map::<Seq<char>, String>::empty(),
        RunState::initial(total_targets).removals == Set::<Seq<char>>::empty(),
        !RunState::initial(total_targets).had_errors,
        state.with_results(Seq::empty()) == state,
        state.with_results(results.push((hash, result))) == state.with_results(results).with_result(
            hash,
            result,
        ),
{
    assert(results.push((hash, result)).drop_last() =~= results);
}

/// What is cached of each range after a run, in terms of its result.
pub proof fn law_what_is_cached_after_a_run(
    cached: Map<Seq<char>, String>,
    total_targets: u64,
    results: Seq<(Seq<char>, RangeResult)>,
    i: int,
)
    requires
        forall|j: int, k: int|
            0 <= j < k < results.len() ==> (#[trigger] results[j]).0 != (#[trigger] results[k]).0,
        0 <= i < results.len(),
    ensures
        ({
            let end = RunState::initial(total_targets).with_results(results);
            let after = with_deltas(cached, end.updates, end.removals);
            let hash = results[i].0;
            match results[i].1 {
                Ok(done) => match done.status {
                    DownloadStatus::Downloaded { etag: Some(etag) } => after.contains_key(hash)
                        && after[hash] == etag,
                    DownloadStatus::Downloaded { etag: None } => !after.contains_key(hash),
                    DownloadStatus::NotModified => after.contains_key(hash) == cached.contains_key(
                        hash,
                    ) && (cached.contains_key(hash) ==> after[hash] == cached[hash]),
                },
                Err(DownloadError::FileOperation { .. }) => !after.contains_key(hash),
                Err(_) => after.contains_key(hash) == cached.contains_key(hash) && (
                cached.contains_key(hash) ==> after[hash] == cached[hash]),
            }
        }),
{
    law_cache_follows_results(cached, total_targets, results);
    let end = RunState::initial(total_targets).with_results(results);
    let after = with_deltas(cached, end.updates, end.removals);
    assert(lookup(after, results[i].0) == etag_after(
        lookup(cached, results[i].0),
        results[i].1,
    ));
}

/// What became of a range.
pub enum Outcome {
    Written,
    Unchanged,
    Cancelled,
    ClientError,
    HttpError,
    NetworkError,
    FileError,
}

/// What became of a range, by its result.
pub open spec fn outcome_of(result: RangeResult) -> Outcome {
    match result {
        Ok(done) => match done.status {
            DownloadStatus::Downloaded { .. } => Outcome::Written,
            DownloadStatus::NotModified => Outcome::Unchanged,
        },
        Err(error) => match error {
            DownloadError::Cancelled { .. } => Outcome::Cancelled,
            DownloadError::Client { .. } => Outcome::ClientError,
            DownloadError::Http { .. } => Outcome::HttpError,
            DownloadError::Network { .. } => Outcome::NetworkError,
            DownloadError::FileOperation { .. } => Outcome::FileError,
        },
    }
}

/// How many ranges came to an outcome.
pub open spec fn count_of(results: Seq<(Seq<char>, RangeResult)>, outcome: Outcome) -> nat
    decreases results.len(),
{
    if results.len() == 0 {
        0
    } else {
        count_of(results.drop_last(), outcome) + if outcome_of(results.last().1) == outcome {
            1nat
        } else {
            0nat
        }
    }
}

/// Whether counters are the numbers of ranges that came to each outcome.
pub open spec fn counts_outcomes(
    counts: RunCounts,
    results: Seq<(Seq<char>, RangeResult)>,
) -> bool {
    &&& counts.downloaded_or_updated == count_of(results, Outcome::Written)
    &&& counts.not_modified == count_of(results, Outcome::Unchanged)
    &&& counts.cancelled == count_of(results, Outcome::Cancelled)
    &&& counts.error_client == count_of(results, Outcome::ClientError)
    &&& counts.error_http == count_of(results, Outcome::HttpError)
    &&& counts.error_network == count_of(results, Outcome::NetworkError)
    &&& counts.error_file == count_of(results, Outcome::FileError)
}

proof fn lemma_count_is_no_more(results: Seq<(Seq<char>, RangeResult)>, outcome: Outcome)
    ensures
        count_of(results, outcome) <= results.len(),
    decreases results.len(),
{
    if results.len() > 0 {
        lemma_count_is_no_more(results.drop_last(), outcome);
    }
}

/// How one result changes the counters, as long as they are not full.
proof fn lemma_result_counts_its_outcome(before: RunState, hash: Seq<char>, result: RangeResult)
    requires
        before.counts.downloaded_or_updated < u64::MAX,
        before.counts.not_modified < u64::MAX,
        before.counts.cancelled < u64::MAX,
        before.counts.error_client < u64::MAX,
        before.counts.error_http < u64::MAX,
        before.counts.error_network < u64::MAX,
        before.counts.error_file < u64::MAX,
    ensures
        ({
            let (a, b) = (before.counts, before.with_result(hash, result).counts);
            let outcome = outcome_of(result);
            let one = |is: bool|
                if is {
                    1int
                } else {
                    0int
                };
            &&& b.downloaded_or_updated == a.downloaded_or_updated + one(outcome is Written)
            &&& b.not_modified == a.not_modified + one(outcome is Unchanged)
            &&& b.cancelled == a.cancelled + one(outcome is Cancelled)
            &&& b.error_client == a.error_client + one(outcome is ClientError)
            &&& b.error_http == a.error_http + one(outcome is HttpError)
            &&& b.error_network == a.error_network + one(outcome is NetworkError)
            &&& b.error_file == a.error_file + one(outcome is FileError)
        }),
{
    let a = before.counts;
    lemma_small_mod((a.downloaded_or_updated + 1) as nat, 0x1_0000_0000_0000_0000);
    lemma_small_mod((a.not_modified + 1) as nat, 0x1_0000_0000_0000_0000);
    lemma_small_mod((a.cancelled + 1) as nat, 0x1_0000_0000_0000_0000);
    lemma_small_mod((a.error_client + 1) as nat, 0x1_0000_0000_0000_0000);
    lemma_small_mod((a.error_http + 1) as nat, 0x1_0000_0000_0000_0000);
    lemma_small_mod((a.error_network + 1) as nat, 0x1_0000_0000_0000_0000);
    lemma_small_mod((a.error_file + 1) as nat, 0x1_0000_0000_0000_0000);
}

proof fn lemma_outcomes_are_counted(
    total_targets: u64,
    results: Seq<(Seq<char>, RangeResult)>,
)
    requires
        results.len() <= u64::MAX,
    ensures
        counts_outcomes(RunState::initial(total_targets).with_results(results).counts, results),
    decreases results.len(),
{
    if results.len() > 0 {
        let earlier = results.drop_last();
        let (hash, result) = results.last();
        lemma_outcomes_are_counted(total_targets, earlier);
        let before = RunState::initial(total_targets).with_results(earlier);
        lemma_count_is_no_more(earlier, Outcome::Written);
        lemma_count_is_no_more(earlier, Outcome::Unchanged);
        lemma_count_is_no_more(earlier, Outcome::Cancelled);
        lemma_count_is_no_more(earlier, Outcome::ClientError);
        lemma_count_is_no_more(earlier, Outcome::HttpError);
        lemma_count_is_no_more(earlier, Outcome::NetworkError);
        lemma_count_is_no_more(earlier, Outcome::FileError);
        lemma_result_counts_its_outcome(before, hash, result);
    }
}

/// What a result is counted as.
pub proof fn law_outcome_of_each_result(
    results: Seq<(Seq<char>, RangeResult)>,
    hash: Seq<char>,
    result: RangeResult,
    outcome: Outcome,
)
    ensures
        count_of(Seq::empty(), outcome) == 0,
        count_of(results.push((hash, result)), outcome) == count_of(results, outcome) + (if outcome
            == outcome_of(result) {
            1int
        } else {
            0int
        }),
        outcome_of(result) is Written <==> result is Ok && result->Ok_0.status is Downloaded,
        outcome_of(result) is Unchanged <==> result is Ok && result->Ok_0.status is NotModified,
        outcome_of(result) is Cancelled <==> result is Err && result->Err_0 is Cancelled,
        outcome_of(result) is ClientError <==> result is Err && result->Err_0 is Client,
        outcome_of(result) is HttpError <==> result is Err && result->Err_0 is Http,
        outcome_of(result) is NetworkError <==> result is Err && result->Err_0 is Network,
        outcome_of(result) is FileError <==> result is Err && result->Err_0 is FileOperation,
{
    assert(results.push((hash, result)).drop_last() =~= results);
}

/// What a user reads at the end of a run is what became of its ranges: the number
/// behind each word of the summary is the number of results of that kind.
pub proof fn law_summary_tells_results(
    total_targets: u64,
    results: Seq<(Seq<char>, RangeResult)>,
    snapshot: RunStatsSnapshot,
    was_cancelled: bool,
    figures: SummaryFigures,
)
    requires
        results.len() <= u64::MAX,
        snapshot.is_of(
            RunState::initial(total_targets).with_results(results).counts,
            was_cancelled,
        ),
    ensures
        ({
            let line = summary(snapshot, figures);
            &&& holds_text(line, " targets="@ + decimal(total_targets as nat) + " processed="@)
            &&& holds_text(line, " processed="@ + decimal(results.len()) + " progress_pct="@)
            &&& holds_text(
                line,
                " updated="@ + decimal(count_of(results, Outcome::Written)) + " unchanged="@
                    + decimal(count_of(results, Outcome::Unchanged)) + " "@,
            )
            &&& holds_text(
                line,
                " cancelled="@ + decimal(count_of(results, Outcome::Cancelled)) + " retries="@,
            )
            &&& holds_text(
                line,
                " errors="@ + decimal(
                    count_of(results, Outcome::ClientError) + count_of(results, Outcome::HttpError)
                        + count_of(results, Outcome::NetworkError) + count_of(
                        results,
                        Outcome::FileError,
                    ),
                ),
            )
        }),
{
    let end = RunState::initial(total_targets).with_results(results).counts;
    lemma_outcomes_are_counted(total_targets, results);
    law_results_are_counted(total_targets, results);
    lemma_small_mod(results.len(), 0x1_0000_0000_0000_0000);
    law_snapshot_tells_counts(snapshot, end, was_cancelled);
    law_summary_tells_snapshot(snapshot, figures);
}

}
