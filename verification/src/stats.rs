//! The counters of a run, and the line that sums it up.

use std::time::{Duration, Instant};
use vstd::arithmetic::div_mod::{
    lemma_add_mod_noop_right, lemma_mod_add_multiples_vanish, lemma_small_mod,
};
use vstd::prelude::*;
use vstd::string::*;

use crate::download::DownloadError;
use crate::outside::{elapsed_since, instant_now};
use crate::text::{decimal, decimal_text};

verus! {

/// The counters of a run. Each counts modulo two to the power of 64.
pub struct RunCounts {
    pub total_targets: u64,
    pub processed: u64,
    pub downloaded_or_updated: u64,
    pub not_modified: u64,
    pub cancelled: u64,
    pub error_client: u64,
    pub error_http: u64,
    pub error_network: u64,
    pub error_file: u64,
    pub total_retries: u64,
    pub retried_requests: u64,
}

/// A counter after more was counted; it starts again at zero when it is full.
pub open spec fn counted(counter: u64, more: u64) -> u64 {
    ((counter + more) % 0x1_0000_0000_0000_0000) as u64
}

impl RunCounts {
    /// The counters of a run that has not begun.
    pub open spec fn initial(total_targets: u64) -> RunCounts {
        RunCounts {
            total_targets,
            processed: 0,
            downloaded_or_updated: 0,
            not_modified: 0,
            cancelled: 0,
            error_client: 0,
            error_http: 0,
            error_network: 0,
            error_file: 0,
            total_retries: 0,
            retried_requests: 0,
        }
    }

    /// One more range was dealt with.
    pub open spec fn with_processed(self) -> RunCounts {
        RunCounts { processed: counted(self.processed, 1), ..self }
    }

    /// One more range was dealt with and written.
    pub open spec fn with_downloaded(self) -> RunCounts {
        RunCounts {
            downloaded_or_updated: counted(self.downloaded_or_updated, 1),
            ..self.with_processed()
        }
    }

    /// One more range was dealt with and had not changed.
    pub open spec fn with_not_modified(self) -> RunCounts {
        RunCounts { not_modified: counted(self.not_modified, 1), ..self.with_processed() }
    }

    /// One more range was dealt with and was cancelled.
    pub open spec fn with_cancelled(self) -> RunCounts {
        RunCounts { cancelled: counted(self.cancelled, 1), ..self.with_processed() }
    }

    /// One more request was made, with a number of retries.
    pub open spec fn with_retries(self, retries_used: u64) -> RunCounts {
        RunCounts {
            total_retries: counted(self.total_retries, retries_used),
            retried_requests: if retries_used > 0 {
                counted(self.retried_requests, 1)
            } else {
                self.retried_requests
            },
            ..self
        }
    }

    /// One more range was dealt with and failed.
    pub open spec fn with_error(self, error: DownloadError) -> RunCounts {
        let processed = self.with_processed();
        match error {
            DownloadError::Client { .. } => RunCounts {
                error_client: counted(self.error_client, 1),
                ..processed
            },
            DownloadError::Http { .. } => RunCounts {
                error_http: counted(self.error_http, 1),
                ..processed
            },
            DownloadError::Network { .. } => RunCounts {
                error_network: counted(self.error_network, 1),
                ..processed
            },
            DownloadError::FileOperation { .. } => RunCounts {
                error_file: counted(self.error_file, 1),
                ..processed
            },
            DownloadError::Cancelled { .. } => self.with_cancelled(),
        }
    }

    /// The number of ranges that failed.
    pub open spec fn errors(self) -> int {
        self.error_client + self.error_http + self.error_network + self.error_file
    }

    /// Whether no more requests were repeated than there were retries, and
    /// there are some of the one exactly if there are some of the other.
    pub open spec fn retries_agree(self) -> bool {
        &&& self.retried_requests <= self.total_retries
        &&& self.retried_requests == 0 <==> self.total_retries == 0
    }

    /// Whether every range that was dealt with is counted under one outcome.
    pub open spec fn is_balanced(self) -> bool {
        self.processed == (self.downloaded_or_updated + self.not_modified + self.cancelled
            + self.errors()) % 0x1_0000_0000_0000_0000
    }
}

/// Every range that is dealt with is counted under exactly one outcome:
/// written, unchanged, cancelled or failed. Retries change nothing about it.
pub proof fn law_outcomes_add_up(
    counts: RunCounts,
    total_targets: u64,
    error: DownloadError,
    retries_used: u64,
)
    ensures
        RunCounts::initial(total_targets).is_balanced(),
        counts.is_balanced() ==> counts.with_downloaded().is_balanced(),
        counts.is_balanced() ==> counts.with_not_modified().is_balanced(),
        counts.is_balanced() ==> counts.with_cancelled().is_balanced(),
        counts.is_balanced() ==> counts.with_error(error).is_balanced(),
        counts.is_balanced() ==> counts.with_retries(retries_used).is_balanced(),
{
    let c = counts;
    if c.is_balanced() {
        let written = c.downloaded_or_updated as int;
        let all = written + c.not_modified + c.cancelled + c.errors();
        assert(c.with_downloaded().is_balanced()) by {
            lemma_one_more(c.processed, c.downloaded_or_updated, all - c.downloaded_or_updated);
        }
        assert(c.with_not_modified().is_balanced()) by {
            lemma_one_more(c.processed, c.not_modified, all - c.not_modified);
        }
        assert(c.with_cancelled().is_balanced()) by {
            lemma_one_more(c.processed, c.cancelled, all - c.cancelled);
        }
        assert(c.with_error(error).is_balanced()) by {
            match error {
                DownloadError::Client { .. } => {
                    lemma_one_more(c.processed, c.error_client, all - c.error_client);
                },
                DownloadError::Http { .. } => {
                    lemma_one_more(c.processed, c.error_http, all - c.error_http);
                },
                DownloadError::Network { .. } => {
                    lemma_one_more(c.processed, c.error_network, all - c.error_network);
                },
                DownloadError::FileOperation { .. } => {
                    lemma_one_more(c.processed, c.error_file, all - c.error_file);
                },
                DownloadError::Cancelled { .. } => {
                    lemma_one_more(c.processed, c.cancelled, all - c.cancelled);
                },
            }
        }
    }
}

/// As long as the retries can be counted, no more requests were repeated than
/// there were retries, and there are some of the one exactly if there are some
/// of the other. Outcomes change nothing about it.
pub proof fn law_retries_agree(
    counts: RunCounts,
    total_targets: u64,
    error: DownloadError,
    retries_used: u64,
)
    ensures
        RunCounts::initial(total_targets).retries_agree(),
        counts.retries_agree() ==> counts.with_downloaded().retries_agree(),
        counts.retries_agree() ==> counts.with_not_modified().retries_agree(),
        counts.retries_agree() ==> counts.with_cancelled().retries_agree(),
        counts.retries_agree() ==> counts.with_error(error).retries_agree(),
        counts.retries_agree() && counts.total_retries + retries_used <= u64::MAX
            ==> counts.with_retries(retries_used).retries_agree(),
{
}

/// A total that holds a counter grows with it.
pub proof fn lemma_one_more(total: u64, counter: u64, others: int)
    requires
        total == (counter + others) % 0x1_0000_0000_0000_0000,
    ensures
        counted(total, 1) == (counted(counter, 1) + others) % 0x1_0000_0000_0000_0000,
        counted(total, 1) == (counter + others + 1) % 0x1_0000_0000_0000_0000,
{
    let all = 0x1_0000_0000_0000_0000int;
    lemma_add_mod_noop_right(1, counter + others, all);
    lemma_add_mod_noop_right(others, counter + 1, all);
}

/// The counters of a run that is under way.
#[derive(Debug)]
pub struct RunStats {
    started_at: Instant,
    total_targets: u64,
    processed: u64,
    downloaded_or_updated: u64,
    not_modified: u64,
    cancelled: u64,
    error_client: u64,
    error_http: u64,
    error_network: u64,
    error_file: u64,
    total_retries: u64,
    retried_requests: u64,
}

impl View for RunStats {
    type V = RunCounts;

    closed spec fn view(&self) -> RunCounts {
        RunCounts {
            total_targets: self.total_targets,
            processed: self.processed,
            downloaded_or_updated: self.downloaded_or_updated,
            not_modified: self.not_modified,
            cancelled: self.cancelled,
            error_client: self.error_client,
            error_http: self.error_http,
            error_network: self.error_network,
            error_file: self.error_file,
            total_retries: self.total_retries,
            retried_requests: self.retried_requests,
        }
    }
}

/// The state of a run at one time. The average and the throughput are given
/// as the two sides of a division.
#[derive(Clone, Copy, Debug, PartialEq)]
pub struct RunStatsSnapshot {
    pub elapsed: Duration,
    pub total_targets: u64,
    pub processed: u64,
    pub downloaded_or_updated: u64,
    pub not_modified: u64,
    pub cancelled: u64,
    pub error_client: u64,
    pub error_http: u64,
    pub error_network: u64,
    pub error_file: u64,
    pub errors_total: u64,
    pub total_retries: u64,
    pub retried_requests: u64,
    /// The elapsed time over the ranges that were dealt with, if there are any.
    pub avg_end_to_end_per_processed: Option<(Duration, u64)>,
    /// The ranges that were dealt with over the elapsed time.
    pub throughput: (u64, Duration),
    pub was_cancelled: bool,
}

impl RunStatsSnapshot {
    /// Whether this is the state of a run with these counters.
    pub open spec fn is_of(self, counts: RunCounts, was_cancelled: bool) -> bool {
        &&& self.total_targets == counts.total_targets
        &&& self.processed == counts.processed
        &&& self.downloaded_or_updated == counts.downloaded_or_updated
        &&& self.not_modified == counts.not_modified
        &&& self.cancelled == counts.cancelled
        &&& self.error_client == counts.error_client
        &&& self.error_http == counts.error_http
        &&& self.error_network == counts.error_network
        &&& self.error_file == counts.error_file
        &&& self.errors_total == counts.errors()
        &&& self.total_retries == counts.total_retries
        &&& self.retried_requests == counts.retried_requests
        &&& self.avg_end_to_end_per_processed == (if counts.processed > 0 {
            Some((self.elapsed, counts.processed))
        } else {
            None
        })
        &&& self.throughput == (counts.processed, self.elapsed)
        &&& self.was_cancelled == was_cancelled
    }
}

/// The fractional figures of a summary, as texts.
#[derive(Debug)]
pub struct SummaryFigures {
    /// The elapsed time in seconds.
    pub elapsed: String,
    /// The ranges that were dealt with, in percent of all.
    pub progress: String,
    /// The ranges that were dealt with, per second.
    pub rate: String,
    /// The time per range in milliseconds.
    pub avg_ms: String,
}

/// The part of a summary about retries. How many requests they fall on is
/// said only if there are any.
pub open spec fn retry_segment(s: RunStatsSnapshot) -> Seq<char> {
    let total = "retries="@ + decimal(s.total_retries as nat);
    if s.total_retries > 0 {
        total + " (requests="@ + decimal(s.retried_requests as nat) + ")"@
    } else {
        total
    }
}

/// The part of a summary about errors. Their kinds are said only if there are
/// any.
pub open spec fn error_segment(s: RunStatsSnapshot) -> Seq<char> {
    let total = "errors="@ + decimal(s.errors_total as nat);
    if s.errors_total > 0 {
        total + " (client="@ + decimal(s.error_client as nat) + " http="@ + decimal(
            s.error_http as nat,
        ) + " network="@ + decimal(s.error_network as nat) + " file="@ + decimal(
            s.error_file as nat,
        ) + ")"@
    } else {
        total
    }
}

/// The line that sums up a run.
pub open spec fn summary(s: RunStatsSnapshot, figures: SummaryFigures) -> Seq<char> {
    "Run stats status="@ + (if s.was_cancelled {
        "cancelled"@
    } else {
        "ok"@
    }) + " elapsed="@ + figures.elapsed@ + "s targets="@ + decimal(s.total_targets as nat)
        + " processed="@ + decimal(s.processed as nat) + " progress_pct="@ + figures.progress@
        + " rate_hps="@ + figures.rate@ + " avg="@ + figures.avg_ms@ + "ms updated="@ + decimal(
        s.downloaded_or_updated as nat,
    ) + " unchanged="@ + decimal(s.not_modified as nat) + " cancelled="@ + decimal(
        s.cancelled as nat,
    ) + " "@ + retry_segment(s) + " "@ + error_segment(s)
}

impl RunStats {
    /// When the run started.
    pub closed spec fn spec_started_at(self) -> Instant {
        self.started_at
    }

    /// Starts to count a run over a number of ranges.
    pub fn new(total_targets: u64) -> (stats: Self)
        ensures
            stats@ == RunCounts::initial(total_targets),
    {
        RunStats {
            started_at: instant_now(),
            total_targets,
            processed: 0,
            downloaded_or_updated: 0,
            not_modified: 0,
            cancelled: 0,
            error_client: 0,
            error_http: 0,
            error_network: 0,
            error_file: 0,
            total_retries: 0,
            retried_requests: 0,
        }
    }

    fn mark_processed(&mut self)
        ensures
            final(self)@ == old(self)@.with_processed(),
            final(self).spec_started_at() == old(self).spec_started_at(),
    {
        self.processed = self.processed.wrapping_add(1);
    }

    /// Counts a range that was written.
    pub fn record_downloaded(&mut self)
        ensures
            final(self)@ == old(self)@.with_downloaded(),
            final(self).spec_started_at() == old(self).spec_started_at(),
    {
        self.mark_processed();
        self.downloaded_or_updated = self.downloaded_or_updated.wrapping_add(1);
    }

    /// Counts a range that had not changed.
    pub fn record_not_modified(&mut self)
        ensures
            final(self)@ == old(self)@.with_not_modified(),
            final(self).spec_started_at() == old(self).spec_started_at(),
    {
        self.mark_processed();
        self.not_modified = self.not_modified.wrapping_add(1);
    }

    /// Counts a range that was cancelled.
    pub fn record_cancelled(&mut self)
        ensures
            final(self)@ == old(self)@.with_cancelled(),
            final(self).spec_started_at() == old(self).spec_started_at(),
    {
        self.mark_processed();
        self.cancelled = self.cancelled.wrapping_add(1);
    }

    /// Counts the retries of a request.
    pub fn record_retries(&mut self, retries_used: u64)
        ensures
            final(self)@ == old(self)@.with_retries(retries_used),
            final(self).spec_started_at() == old(self).spec_started_at(),
    {
        self.total_retries = self.total_retries.wrapping_add(retries_used);
        if retries_used > 0 {
            self.retried_requests = self.retried_requests.wrapping_add(1);
        }
    }

    /// Counts a range that failed, under the kind of its error.
    pub fn record_error(&mut self, err: &DownloadError)
        ensures
            final(self)@ == old(self)@.with_error(*err),
            final(self).spec_started_at() == old(self).spec_started_at(),
    {
        self.mark_processed();
        match err {
            DownloadError::Client { .. } => {
                self.error_client = self.error_client.wrapping_add(1);
            },
            DownloadError::Http { .. } => {
                self.error_http = self.error_http.wrapping_add(1);
            },
            DownloadError::Network { .. } => {
                self.error_network = self.error_network.wrapping_add(1);
            },
            DownloadError::FileOperation { .. } => {
                self.error_file = self.error_file.wrapping_add(1);
            },
            DownloadError::Cancelled { .. } => {
                self.cancelled = self.cancelled.wrapping_add(1);
            },
        }
    }

    /// The state of the run now, which is the one after the time since its
    /// start.
    pub fn snapshot(&self, was_cancelled: bool) -> (snapshot: RunStatsSnapshot)
        requires
            self@.errors() <= u64::MAX,
        ensures
            snapshot.is_of(self@, was_cancelled),
    {
        self.snapshot_at(elapsed_since(&self.started_at), was_cancelled)
    }

    /// The state of the run after a time.
    pub fn snapshot_at(&self, elapsed: Duration, was_cancelled: bool) -> (snapshot:
        RunStatsSnapshot)
        requires
            self@.errors() <= u64::MAX,
        ensures
            snapshot.is_of(self@, was_cancelled),
            snapshot.elapsed == elapsed,
    {
        let errors_total: u64 = self.error_client + self.error_http + self.error_network
            + self.error_file;
        RunStatsSnapshot {
            elapsed,
            total_targets: self.total_targets,
            processed: self.processed,
            downloaded_or_updated: self.downloaded_or_updated,
            not_modified: self.not_modified,
            cancelled: self.cancelled,
            error_client: self.error_client,
            error_http: self.error_http,
            error_network: self.error_network,
            error_file: self.error_file,
            errors_total,
            total_retries: self.total_retries,
            retried_requests: self.retried_requests,
            avg_end_to_end_per_processed: if self.processed > 0 {
                Some((elapsed, self.processed))
            } else {
                None
            },
            throughput: (self.processed, elapsed),
            was_cancelled,
        }
    }

    /// The line that sums up a run.
    pub fn summary_line(s: &RunStatsSnapshot, figures: &SummaryFigures) -> (line: String)
        ensures
            line@ == summary(*s, *figures),
    {
        let status = if s.was_cancelled {
            "cancelled"
        } else {
            "ok"
        };
        let mut retries = "retries=".to_owned().concat(decimal_text(s.total_retries).as_str());
        if s.total_retries > 0 {
            retries = retries.concat(" (requests=").concat(
                decimal_text(s.retried_requests).as_str(),
            ).concat(")");
        }
        let mut errors = "errors=".to_owned().concat(decimal_text(s.errors_total).as_str());
        if s.errors_total > 0 {
            errors = errors.concat(" (client=").concat(
                decimal_text(s.error_client).as_str(),
            ).concat(" http=").concat(decimal_text(s.error_http).as_str()).concat(
                " network=",
            ).concat(decimal_text(s.error_network).as_str()).concat(" file=").concat(
                decimal_text(s.error_file).as_str(),
            ).concat(")");
        }
        "Run stats status=".to_owned().concat(status).concat(" elapsed=").concat(
            figures.elapsed.as_str(),
        ).concat("s targets=").concat(decimal_text(s.total_targets).as_str()).concat(
            " processed=",
        ).concat(decimal_text(s.processed).as_str()).concat(" progress_pct=").concat(
            figures.progress.as_str(),
        ).concat(" rate_hps=").concat(figures.rate.as_str()).concat(" avg=").concat(
            figures.avg_ms.as_str(),
        ).concat("ms updated=").concat(decimal_text(s.downloaded_or_updated).as_str()).concat(
            " unchanged=",
        ).concat(decimal_text(s.not_modified).as_str()).concat(" cancelled=").concat(
            decimal_text(s.cancelled).as_str(),
        ).concat(" ").concat(retries.as_str()).concat(" ").concat(errors.as_str())
    }
}

/// Whether a text stands in a line, in one piece.
pub open spec fn holds_text(line: Seq<char>, text: Seq<char>) -> bool {
    exists|i: int|
        0 <= i && i + text.len() <= line.len() && #[trigger] line.subrange(i, i + text.len())
            == text
}

proof fn lemma_holds(line: Seq<char>, before: Seq<char>, text: Seq<char>, after: Seq<char>)
    requires
        line == before + text + after,
    ensures
        holds_text(line, text),
{
    let i = before.len() as int;
    assert(line.subrange(i, i + text.len()) =~= text);
}

/// Counters count up by what is added, and start again at zero behind the largest
/// number that they can hold.
pub proof fn law_counters_count_up(counter: u64, more: u64)
    ensures
        counter + more <= u64::MAX ==> counted(counter, more) == counter + more,
        counter + more > u64::MAX ==> counted(counter, more) == counter + more
            - 0x1_0000_0000_0000_0000,
{
    if counter + more <= u64::MAX {
        lemma_small_mod((counter + more) as nat, 0x1_0000_0000_0000_0000);
    } else {
        let over = counter + more - 0x1_0000_0000_0000_0000;
        lemma_small_mod(over as nat, 0x1_0000_0000_0000_0000);
        lemma_mod_add_multiples_vanish(over, 0x1_0000_0000_0000_0000);
    }
}

/// What each event adds to the counters, and what it leaves alone. A new run has
/// counted nothing.
pub proof fn law_what_each_event_counts(
    c: RunCounts,
    total_targets: u64,
    retries_used: u64,
    error: DownloadError,
)
    ensures
        RunCounts::initial(total_targets) == (RunCounts {
            total_targets,
            processed: 0,
            downloaded_or_updated: 0,
            not_modified: 0,
            cancelled: 0,
            error_client: 0,
            error_http: 0,
            error_network: 0,
            error_file: 0,
            total_retries: 0,
            retried_requests: 0,
        }),
        c.with_downloaded() == (RunCounts {
            processed: counted(c.processed, 1),
            downloaded_or_updated: counted(c.downloaded_or_updated, 1),
            ..c
        }),
        c.with_not_modified() == (RunCounts {
            processed: counted(c.processed, 1),
            not_modified: counted(c.not_modified, 1),
            ..c
        }),
        c.with_cancelled() == (RunCounts {
            processed: counted(c.processed, 1),
            cancelled: counted(c.cancelled, 1),
            ..c
        }),
        c.with_retries(0) == c,
        retries_used > 0 ==> c.with_retries(retries_used) == (RunCounts {
            total_retries: counted(c.total_retries, retries_used),
            retried_requests: counted(c.retried_requests, 1),
            ..c
        }),
        c.with_error(error).processed == counted(c.processed, 1),
        c.with_error(error).total_targets == c.total_targets,
        c.with_error(error).downloaded_or_updated == c.downloaded_or_updated,
        c.with_error(error).not_modified == c.not_modified,
        c.with_error(error).total_retries == c.total_retries,
        c.with_error(error).retried_requests == c.retried_requests,
        c.with_error(error).cancelled == (if error is Cancelled {
            counted(c.cancelled, 1)
        } else {
            c.cancelled
        }),
        c.with_error(error).error_client == (if error is Client {
            counted(c.error_client, 1)
        } else {
            c.error_client
        }),
        c.with_error(error).error_http == (if error is Http {
            counted(c.error_http, 1)
        } else {
            c.error_http
        }),
        c.with_error(error).error_network == (if error is Network {
            counted(c.error_network, 1)
        } else {
            c.error_network
        }),
        c.with_error(error).error_file == (if error is FileOperation {
            counted(c.error_file, 1)
        } else {
            c.error_file
        }),
{
    law_counters_count_up(c.total_retries, 0);
}

/// A snapshot tells the counters as they are, the errors of all kinds together,
/// and the time and the ranges that the average and the throughput divide.
pub proof fn law_snapshot_tells_counts(s: RunStatsSnapshot, c: RunCounts, was_cancelled: bool)
    requires
        s.is_of(c, was_cancelled),
    ensures
        s.total_targets == c.total_targets,
        s.processed == c.processed,
        s.downloaded_or_updated == c.downloaded_or_updated,
        s.not_modified == c.not_modified,
        s.cancelled == c.cancelled,
        s.error_client == c.error_client,
        s.error_http == c.error_http,
        s.error_network == c.error_network,
        s.error_file == c.error_file,
        s.errors_total == c.error_client + c.error_http + c.error_network + c.error_file,
        s.total_retries == c.total_retries,
        s.retried_requests == c.retried_requests,
        s.avg_end_to_end_per_processed is Some <==> c.processed > 0,
        s.avg_end_to_end_per_processed matches Some((time, ranges)) ==> time == s.elapsed && ranges
            == c.processed,
        s.throughput.0 == c.processed && s.throughput.1 == s.elapsed,
        s.was_cancelled == was_cancelled,
{
}

proof fn lemma_holds_in_longer(front: Seq<char>, line: Seq<char>, text: Seq<char>)
    requires
        holds_text(front, text),
        front.is_prefix_of(line),
    ensures
        holds_text(line, text),
{
    let i = choose|i: int|
        0 <= i && i + text.len() <= front.len() && #[trigger] front.subrange(i, i + text.len())
            == text;
    assert(line.subrange(i, i + text.len()) =~= front.subrange(i, i + text.len())) by {
        assert forall|j: int| 0 <= j < front.len() implies front[j] == line[j] by {
            assert(line.subrange(0, front.len() as int)[j] == line[j]);
        }
    }
}

/// The summary up to the time.
spec fn up_to_time(s: RunStatsSnapshot, f: SummaryFigures) -> Seq<char> {
    "Run stats status="@ + (if s.was_cancelled {
        "cancelled"@
    } else {
        "ok"@
    }) + " elapsed="@ + f.elapsed@ + "s"@
}

/// The summary up to the number of ranges that were dealt with.
spec fn up_to_processed(s: RunStatsSnapshot, f: SummaryFigures) -> Seq<char> {
    up_to_time(s, f) + (" targets="@ + decimal(s.total_targets as nat)) + (" processed="@ + decimal(
        s.processed as nat,
    ))
}

/// The summary up to the average.
spec fn up_to_average(s: RunStatsSnapshot, f: SummaryFigures) -> Seq<char> {
    up_to_processed(s, f) + (" progress_pct="@ + f.progress@) + (" rate_hps="@ + f.rate@) + (
    " avg="@ + f.avg_ms@ + "ms"@)
}

/// The summary up to the cancelled ranges.
spec fn up_to_cancelled(s: RunStatsSnapshot, f: SummaryFigures) -> Seq<char> {
    up_to_average(s, f) + (" updated="@ + decimal(s.downloaded_or_updated as nat) + " unchanged="@
        + decimal(s.not_modified as nat)) + (" cancelled="@ + decimal(s.cancelled as nat))
}

/// The summary up to the retries.
spec fn up_to_retries(s: RunStatsSnapshot, f: SummaryFigures) -> Seq<char> {
    up_to_cancelled(s, f) + (" "@ + retry_segment(s))
}

proof fn lemma_joined(x: Seq<char>, a: Seq<char>, b: Seq<char>, ab: Seq<char>, y: Seq<char>)
    requires
        ab == a + b,
    ensures
        x + ab + y == (x + a) + (b + y),
{
    assert(x + ab + y =~= (x + a) + (b + y));
}

proof fn lemma_regrouped(x: Seq<char>, a: Seq<char>, y: Seq<char>)
    ensures
        x + a + y == x + (a + y),
{
    assert(x + a + y =~= x + (a + y));
}

proof fn lemma_front(x: Seq<char>, y: Seq<char>)
    ensures
        x.is_prefix_of(x + y),
{
    assert(x =~= (x + y).subrange(0, x.len() as int));
}

proof fn lemma_front_of_front(x: Seq<char>, y: Seq<char>, z: Seq<char>)
    requires
        x.is_prefix_of(y),
        y.is_prefix_of(z),
    ensures
        x.is_prefix_of(z),
{
    assert(x =~= z.subrange(0, x.len() as int)) by {
        assert forall|j: int| 0 <= j < x.len() implies x[j] == z[j] by {
            assert(y.subrange(0, x.len() as int)[j] == y[j]);
            assert(z.subrange(0, y.len() as int)[j] == z[j]);
        }
    }
}

/// The summary in parts, each of which starts with a space.
proof fn lemma_summary_in_parts(s: RunStatsSnapshot, f: SummaryFigures)
    ensures
        summary(s, f) == up_to_retries(s, f) + (" "@ + error_segment(s)),
        up_to_time(s, f).is_prefix_of(summary(s, f)),
        up_to_processed(s, f).is_prefix_of(summary(s, f)),
        up_to_average(s, f).is_prefix_of(summary(s, f)),
        up_to_cancelled(s, f).is_prefix_of(summary(s, f)),
        up_to_retries(s, f).is_prefix_of(summary(s, f)),
{
    reveal_strlit("s");
    reveal_strlit(" targets=");
    reveal_strlit("s targets=");
    reveal_strlit("ms");
    reveal_strlit(" updated=");
    reveal_strlit("ms updated=");
    assert("s targets="@ =~= "s"@ + " targets="@);
    assert("ms updated="@ =~= "ms"@ + " updated="@);
    let targets = decimal(s.total_targets as nat);
    let processed = decimal(s.processed as nat);
    let updated = decimal(s.downloaded_or_updated as nat);
    let unchanged = decimal(s.not_modified as nat);
    let cancelled = decimal(s.cancelled as nat);
    let x1 = "Run stats status="@ + (if s.was_cancelled {
        "cancelled"@
    } else {
        "ok"@
    }) + " elapsed="@ + f.elapsed@;
    lemma_joined(x1, "s"@, " targets="@, "s targets="@, targets);
    let x2 = x1 + "s targets="@ + targets;
    lemma_regrouped(x2, " processed="@, processed);
    let x3 = x2 + " processed="@ + processed;
    assert(x3 == up_to_processed(s, f));
    lemma_regrouped(x3, " progress_pct="@, f.progress@);
    let x4 = x3 + " progress_pct="@ + f.progress@;
    lemma_regrouped(x4, " rate_hps="@, f.rate@);
    let x5 = x4 + " rate_hps="@ + f.rate@;
    lemma_regrouped(x5, " avg="@, f.avg_ms@);
    let x6 = x5 + " avg="@ + f.avg_ms@;
    lemma_joined(x6, "ms"@, " updated="@, "ms updated="@, updated);
    lemma_regrouped(x5, " avg="@ + f.avg_ms@, "ms"@);
    assert(x6 + "ms"@ == up_to_average(s, f));
    let x7 = x6 + "ms updated="@ + updated;
    let average = up_to_average(s, f);
    assert(x7 == average + (" updated="@ + updated));
    lemma_regrouped(average, " updated="@ + updated, " unchanged="@);
    lemma_regrouped(average, " updated="@ + updated + " unchanged="@, unchanged);
    let x8 = x7 + " unchanged="@ + unchanged;
    lemma_regrouped(x8, " cancelled="@, cancelled);
    let x9 = x8 + " cancelled="@ + cancelled;
    assert(x9 == up_to_cancelled(s, f));
    lemma_regrouped(x9, " "@, retry_segment(s));
    let x10 = x9 + " "@ + retry_segment(s);
    lemma_regrouped(x10, " "@, error_segment(s));
    assert(summary(s, f) == x10 + " "@ + error_segment(s));
    let line = summary(s, f);
    lemma_front(x10, " "@ + error_segment(s));
    lemma_front(x9, " "@ + retry_segment(s));
    lemma_front_of_front(x9, x10, line);
    lemma_front(average, " updated="@ + updated + " unchanged="@ + unchanged);
    lemma_front(x8, " cancelled="@ + cancelled);
    lemma_front_of_front(average, x8, x9);
    lemma_front_of_front(average, x9, line);
    lemma_front(x3, " progress_pct="@ + f.progress@);
    lemma_front(x4, " rate_hps="@ + f.rate@);
    lemma_front(x5, " avg="@ + f.avg_ms@ + "ms"@);
    lemma_front_of_front(x3, x4, x5);
    lemma_front_of_front(x3, x5, average);
    lemma_front_of_front(x3, average, line);
    lemma_front(up_to_time(s, f), " targets="@ + targets);
    lemma_front(x2, " processed="@ + processed);
    lemma_front_of_front(up_to_time(s, f), x2, x3);
    lemma_front_of_front(up_to_time(s, f), x3, line);
}

proof fn lemma_summary_status(s: RunStatsSnapshot, f: SummaryFigures)
    ensures
        holds_text(
            summary(s, f),
            "Run stats status="@ + (if s.was_cancelled {
                "cancelled"@
            } else {
                "ok"@
            }) + " elapsed="@,
        ),
{
    lemma_summary_in_parts(s, f);
    let time = up_to_time(s, f);
    let text = "Run stats status="@ + (if s.was_cancelled {
        "cancelled"@
    } else {
        "ok"@
    }) + " elapsed="@;
    assert(time =~= Seq::empty() + text + (f.elapsed@ + "s"@));
    lemma_holds(time, Seq::empty(), text, f.elapsed@ + "s"@);
    lemma_holds_in_longer(time, summary(s, f), text);
}

proof fn lemma_regrouped_time(
    head: Seq<char>,
    word: Seq<char>,
    time: Seq<char>,
    unit: Seq<char>,
    next: Seq<char>,
    unit_and_space: Seq<char>,
    next_word: Seq<char>,
    rest: Seq<char>,
)
    requires
        unit + next == unit_and_space + next_word,
    ensures
        (head + word + time + unit) + (next + rest) == head + (word + time + unit_and_space) + (
        next_word + rest),
{
    assert((head + word + time + unit) + (next + rest) =~= head + word + time + (unit + next)
        + rest);
    assert(head + (word + time + unit_and_space) + (next_word + rest) =~= head + word + time + (
    unit_and_space + next_word) + rest);
}

proof fn lemma_summary_elapsed(s: RunStatsSnapshot, f: SummaryFigures)
    ensures
        holds_text(summary(s, f), " elapsed="@ + f.elapsed@ + "s "@),
{
    lemma_summary_in_parts(s, f);
    reveal_strlit("s");
    reveal_strlit("s ");
    reveal_strlit(" targets=");
    reveal_strlit("targets=");
    assert("s"@ + " targets="@ =~= "s "@ + "targets="@);
    let head = "Run stats status="@ + (if s.was_cancelled {
        "cancelled"@
    } else {
        "ok"@
    });
    let targets = decimal(s.total_targets as nat);
    lemma_regrouped_time(
        head,
        " elapsed="@,
        f.elapsed@,
        "s"@,
        " targets="@,
        "s "@,
        "targets="@,
        targets,
    );
    let front = up_to_time(s, f) + (" targets="@ + targets);
    lemma_holds(front, head, " elapsed="@ + f.elapsed@ + "s "@, "targets="@ + targets);
    lemma_front(front, " processed="@ + decimal(s.processed as nat));
    lemma_front_of_front(front, up_to_processed(s, f), summary(s, f));
    lemma_holds_in_longer(front, summary(s, f), " elapsed="@ + f.elapsed@ + "s "@);
}

proof fn lemma_summary_targets(s: RunStatsSnapshot, f: SummaryFigures)
    ensures
        holds_text(
            summary(s, f),
            " targets="@ + decimal(s.total_targets as nat) + " processed="@,
        ),
        holds_text(
            summary(s, f),
            " processed="@ + decimal(s.processed as nat) + " progress_pct="@,
        ),
{
    lemma_summary_in_parts(s, f);
    let line = summary(s, f);
    let time = up_to_time(s, f);
    let targets = " targets="@ + decimal(s.total_targets as nat);
    let number = decimal(s.processed as nat);
    let dealt = up_to_processed(s, f);
    assert(dealt =~= time + (targets + " processed="@) + number);
    lemma_holds(dealt, time, targets + " processed="@, number);
    lemma_holds_in_longer(dealt, line, targets + " processed="@);
    let front = time + targets;
    let processed = " processed="@ + number;
    let next = front + processed + (" progress_pct="@ + f.progress@);
    assert(next =~= front + (processed + " progress_pct="@) + f.progress@);
    lemma_holds(next, front, processed + " progress_pct="@, f.progress@);
    let rate = next + (" rate_hps="@ + f.rate@);
    lemma_front(next, " rate_hps="@ + f.rate@);
    lemma_front(rate, " avg="@ + f.avg_ms@ + "ms"@);
    lemma_front_of_front(next, rate, up_to_average(s, f));
    lemma_front_of_front(next, up_to_average(s, f), line);
    lemma_holds_in_longer(next, line, processed + " progress_pct="@);
}

proof fn lemma_summary_rate(s: RunStatsSnapshot, f: SummaryFigures)
    ensures
        holds_text(summary(s, f), " progress_pct="@ + f.progress@ + " rate_hps="@),
        holds_text(summary(s, f), " rate_hps="@ + f.rate@ + " avg="@),
{
    lemma_summary_in_parts(s, f);
    let line = summary(s, f);
    let dealt = up_to_processed(s, f);
    let average = up_to_average(s, f);
    let progress = " progress_pct="@ + f.progress@;
    let rate = " rate_hps="@ + f.rate@;
    let next = dealt + progress + rate;
    assert(next =~= dealt + (progress + " rate_hps="@) + f.rate@);
    lemma_holds(next, dealt, progress + " rate_hps="@, f.rate@);
    lemma_front(next, " avg="@ + f.avg_ms@ + "ms"@);
    lemma_front_of_front(next, average, line);
    lemma_holds_in_longer(next, line, progress + " rate_hps="@);
    let rest = f.avg_ms@ + "ms"@;
    assert(average =~= (dealt + progress) + (rate + " avg="@) + rest);
    lemma_holds(average, dealt + progress, rate + " avg="@, rest);
    lemma_holds_in_longer(average, line, rate + " avg="@);
}

proof fn lemma_summary_average(s: RunStatsSnapshot, f: SummaryFigures)
    ensures
        holds_text(summary(s, f), " avg="@ + f.avg_ms@ + "ms "@),
{
    lemma_summary_in_parts(s, f);
    reveal_strlit("ms");
    reveal_strlit("ms ");
    reveal_strlit(" updated=");
    reveal_strlit("updated=");
    assert("ms"@ + " updated="@ =~= "ms "@ + "updated="@);
    let line = summary(s, f);
    let front = up_to_processed(s, f) + (" progress_pct="@ + f.progress@) + (" rate_hps="@
        + f.rate@);
    let number = decimal(s.downloaded_or_updated as nat);
    let rest = number + " unchanged="@ + decimal(s.not_modified as nat);
    let text = " avg="@ + f.avg_ms@ + "ms "@;
    lemma_regrouped_time(
        front,
        " avg="@,
        f.avg_ms@,
        "ms"@,
        " updated="@,
        "ms "@,
        "updated="@,
        rest,
    );
    let average = up_to_average(s, f);
    lemma_regrouped(front, " avg="@, f.avg_ms@);
    lemma_regrouped(front, " avg="@ + f.avg_ms@, "ms"@);
    lemma_regrouped(" updated="@, number, " unchanged="@);
    lemma_regrouped(" updated="@, number + " unchanged="@, decimal(s.not_modified as nat));
    let both = " updated="@ + number + " unchanged="@ + decimal(s.not_modified as nat);
    assert(both == " updated="@ + rest);
    let updated = average + both;
    lemma_holds(updated, front, text, "updated="@ + rest);
    lemma_front(updated, " cancelled="@ + decimal(s.cancelled as nat));
    lemma_front_of_front(updated, up_to_cancelled(s, f), line);
    lemma_holds_in_longer(updated, line, text);
}

proof fn lemma_summary_updated(s: RunStatsSnapshot, f: SummaryFigures)
    ensures
        holds_text(
            summary(s, f),
            " updated="@ + decimal(s.downloaded_or_updated as nat) + " unchanged="@ + decimal(
                s.not_modified as nat,
            ) + " "@,
        ),
{
    lemma_summary_in_parts(s, f);
    reveal_strlit(" ");
    reveal_strlit(" cancelled=");
    reveal_strlit("cancelled=");
    assert(" cancelled="@ =~= " "@ + "cancelled="@);
    let average = up_to_average(s, f);
    let end = up_to_cancelled(s, f);
    let both = " updated="@ + decimal(s.downloaded_or_updated as nat) + " unchanged="@ + decimal(
        s.not_modified as nat,
    );
    let number = decimal(s.cancelled as nat);
    lemma_regrouped(" "@, "cancelled="@, number);
    lemma_regrouped(average + both, " "@, "cancelled="@ + number);
    lemma_regrouped(average, both, " "@);
    assert(end == average + (both + " "@) + ("cancelled="@ + number));
    lemma_holds(end, average, both + " "@, "cancelled="@ + number);
    lemma_holds_in_longer(end, summary(s, f), both + " "@);
}

/// The retries in the summary, behind the word.
spec fn retry_figures(s: RunStatsSnapshot) -> Seq<char> {
    if s.total_retries > 0 {
        decimal(s.total_retries as nat) + " (requests="@ + decimal(s.retried_requests as nat)
            + ")"@
    } else {
        decimal(s.total_retries as nat)
    }
}

/// The kinds of errors in the summary, behind their number.
spec fn error_kinds(s: RunStatsSnapshot) -> Seq<char> {
    if s.errors_total > 0 {
        " (client="@ + decimal(s.error_client as nat) + " http="@ + decimal(s.error_http as nat)
            + " network="@ + decimal(s.error_network as nat) + " file="@ + decimal(
            s.error_file as nat,
        ) + ")"@
    } else {
        Seq::empty()
    }
}

proof fn lemma_retries_behind_word(s: RunStatsSnapshot)
    ensures
        " "@ + retry_segment(s) == " retries="@ + retry_figures(s),
{
    reveal_strlit(" ");
    reveal_strlit("retries=");
    reveal_strlit(" retries=");
    assert(" retries="@ =~= " "@ + "retries="@);
    let total = decimal(s.total_retries as nat);
    let requests = decimal(s.retried_requests as nat);
    if s.total_retries > 0 {
        assert(retry_segment(s) =~= "retries="@ + (total + " (requests="@ + requests + ")"@));
    }
    lemma_regrouped(" "@, "retries="@, retry_figures(s));
}

proof fn lemma_kinds_regrouped(
    head: Seq<char>,
    a: Seq<char>,
    b: Seq<char>,
    c: Seq<char>,
    d: Seq<char>,
    e: Seq<char>,
    f: Seq<char>,
    g: Seq<char>,
    h: Seq<char>,
    i: Seq<char>,
)
    ensures
        head + a + b + c + d + e + f + g + h + i == head + (a + b + c + d + e + f + g + h + i),
{
    lemma_regrouped(head, a, b);
    lemma_regrouped(head, a + b, c);
    lemma_regrouped(head, a + b + c, d);
    lemma_regrouped(head, a + b + c + d, e);
    lemma_regrouped(head, a + b + c + d + e, f);
    lemma_regrouped(head, a + b + c + d + e + f, g);
    lemma_regrouped(head, a + b + c + d + e + f + g, h);
    lemma_regrouped(head, a + b + c + d + e + f + g + h, i);
}

proof fn lemma_errors_behind_word(s: RunStatsSnapshot)
    ensures
        " "@ + error_segment(s) == " errors="@ + decimal(s.errors_total as nat) + error_kinds(s),
{
    reveal_strlit(" ");
    reveal_strlit("errors=");
    reveal_strlit(" errors=");
    assert(" errors="@ =~= " "@ + "errors="@);
    let number = decimal(s.errors_total as nat);
    let head = "errors="@ + number;
    if s.errors_total > 0 {
        lemma_kinds_regrouped(
            head,
            " (client="@,
            decimal(s.error_client as nat),
            " http="@,
            decimal(s.error_http as nat),
            " network="@,
            decimal(s.error_network as nat),
            " file="@,
            decimal(s.error_file as nat),
            ")"@,
        );
    } else {
        assert(head =~= head + error_kinds(s));
    }
    assert(error_segment(s) == head + error_kinds(s));
    lemma_regrouped(" "@, head, error_kinds(s));
    lemma_regrouped(" "@, "errors="@, number);
}

proof fn lemma_summary_cancelled(s: RunStatsSnapshot, f: SummaryFigures)
    ensures
        holds_text(summary(s, f), " cancelled="@ + decimal(s.cancelled as nat) + " retries="@),
{
    lemma_summary_in_parts(s, f);
    lemma_retries_behind_word(s);
    let before = up_to_average(s, f) + (" updated="@ + decimal(s.downloaded_or_updated as nat)
        + " unchanged="@ + decimal(s.not_modified as nat));
    let cancelled = " cancelled="@ + decimal(s.cancelled as nat);
    let retried = up_to_retries(s, f);
    assert(retried =~= before + (cancelled + " retries="@) + retry_figures(s));
    lemma_holds(retried, before, cancelled + " retries="@, retry_figures(s));
    lemma_holds_in_longer(retried, summary(s, f), cancelled + " retries="@);
}

proof fn lemma_summary_retries(s: RunStatsSnapshot, f: SummaryFigures)
    ensures
        ({
            let line = summary(s, f);
            &&& s.total_retries == 0 ==> holds_text(line, " retries="@ + decimal(0) + " errors="@)
            &&& s.total_retries > 0 ==> holds_text(
                line,
                " retries="@ + decimal(s.total_retries as nat) + " (requests="@ + decimal(
                    s.retried_requests as nat,
                ) + ") errors="@,
            )
        }),
{
    lemma_summary_in_parts(s, f);
    lemma_retries_behind_word(s);
    lemma_errors_behind_word(s);
    let line = summary(s, f);
    let front = up_to_cancelled(s, f);
    let text = " retries="@ + retry_figures(s) + " errors="@;
    let rest = decimal(s.errors_total as nat) + error_kinds(s);
    assert(line =~= front + text + rest);
    lemma_holds(line, front, text, rest);
    if s.total_retries > 0 {
        reveal_strlit(")");
        reveal_strlit(" errors=");
        reveal_strlit(") errors=");
        assert(") errors="@ =~= ")"@ + " errors="@);
        let (total, requests) = (
            decimal(s.total_retries as nat),
            decimal(s.retried_requests as nat),
        );
        assert(text =~= " retries="@ + total + " (requests="@ + requests + ") errors="@);
    }
}

proof fn lemma_summary_errors(s: RunStatsSnapshot, f: SummaryFigures)
    ensures
        ({
            let line = summary(s, f);
            &&& holds_text(line, " errors="@ + decimal(s.errors_total as nat))
            &&& s.errors_total > 0 ==> holds_text(
                line,
                " errors="@ + decimal(s.errors_total as nat) + " (client="@ + decimal(
                    s.error_client as nat,
                ) + " http="@ + decimal(s.error_http as nat) + " network="@ + decimal(
                    s.error_network as nat,
                ) + " file="@ + decimal(s.error_file as nat) + ")"@,
            )
        }),
{
    lemma_summary_in_parts(s, f);
    lemma_errors_behind_word(s);
    let line = summary(s, f);
    let front = up_to_retries(s, f);
    let head = " errors="@ + decimal(s.errors_total as nat);
    assert(line =~= front + head + error_kinds(s));
    lemma_holds(line, front, head, error_kinds(s));
    if s.errors_total > 0 {
        lemma_kinds_regrouped(
            head,
            " (client="@,
            decimal(s.error_client as nat),
            " http="@,
            decimal(s.error_http as nat),
            " network="@,
            decimal(s.error_network as nat),
            " file="@,
            decimal(s.error_file as nat),
            ")"@,
        );
        let full = head + error_kinds(s);
        assert(line =~= front + full + Seq::empty());
        lemma_holds(line, front, full, Seq::empty());
    }
}

proof fn lemma_summary_length(s: RunStatsSnapshot, f: SummaryFigures)
    ensures
        ({
            let line = summary(s, f);
            let number = |n: u64| decimal(n as nat);
            line.len() == 17 + (if s.was_cancelled {
                9int
            } else {
                2int
            }) + 9 + f.elapsed@.len() + 10 + number(s.total_targets).len() + 11 + number(
                s.processed,
            ).len() + 14 + f.progress@.len() + 10 + f.rate@.len() + 5 + f.avg_ms@.len() + 11
                + number(s.downloaded_or_updated).len() + 11 + number(s.not_modified).len() + 11
                + number(s.cancelled).len() + 9 + number(s.total_retries).len() + (if s.total_retries
                > 0 {
                12 + number(s.retried_requests).len()
            } else {
                0
            }) + 8 + number(s.errors_total).len() + (if s.errors_total > 0 {
                9 + number(s.error_client).len() + 6 + number(s.error_http).len() + 9 + number(
                    s.error_network,
                ).len() + 6 + number(s.error_file).len() + 1
            } else {
                0
            })
        }),
{
    reveal_strlit("Run stats status=");
    reveal_strlit("cancelled");
    reveal_strlit("ok");
    reveal_strlit(" elapsed=");
    reveal_strlit("s targets=");
    reveal_strlit(" processed=");
    reveal_strlit(" progress_pct=");
    reveal_strlit(" rate_hps=");
    reveal_strlit(" avg=");
    reveal_strlit("ms updated=");
    reveal_strlit(" unchanged=");
    reveal_strlit(" cancelled=");
    reveal_strlit(" ");
    reveal_strlit("retries=");
    reveal_strlit(" (requests=");
    reveal_strlit("errors=");
    reveal_strlit(" (client=");
    reveal_strlit(" http=");
    reveal_strlit(" network=");
    reveal_strlit(" file=");
    reveal_strlit(")");
}

/// What a user reads in the summary of a run. Behind each word stands the figure
/// that the word names; the kinds of errors, and the requests that were repeated,
/// are there only if there are any. Nothing else is in the line.
pub proof fn law_summary_tells_snapshot(s: RunStatsSnapshot, f: SummaryFigures)
    ensures
        ({
            let line = summary(s, f);
            let number = |n: u64| decimal(n as nat);
            &&& s.was_cancelled ==> holds_text(
                line,
                "Run stats status="@ + "cancelled"@ + " elapsed="@,
            )
            &&& !s.was_cancelled ==> holds_text(line, "Run stats status="@ + "ok"@ + " elapsed="@)
            &&& holds_text(line, " elapsed="@ + f.elapsed@ + "s "@)
            &&& holds_text(line, " targets="@ + decimal(s.total_targets as nat) + " processed="@)
            &&& holds_text(line, " processed="@ + decimal(s.processed as nat) + " progress_pct="@)
            &&& holds_text(line, " progress_pct="@ + f.progress@ + " rate_hps="@)
            &&& holds_text(line, " rate_hps="@ + f.rate@ + " avg="@)
            &&& holds_text(line, " avg="@ + f.avg_ms@ + "ms "@)
            &&& holds_text(
                line,
                " updated="@ + decimal(s.downloaded_or_updated as nat) + " unchanged="@ + decimal(
                    s.not_modified as nat,
                ) + " "@,
            )
            &&& holds_text(line, " cancelled="@ + decimal(s.cancelled as nat) + " retries="@)
            &&& s.total_retries == 0 ==> holds_text(line, " retries="@ + decimal(0) + " errors="@)
            &&& s.total_retries > 0 ==> holds_text(
                line,
                " retries="@ + decimal(s.total_retries as nat) + " (requests="@ + decimal(
                    s.retried_requests as nat,
                ) + ") errors="@,
            )
            &&& holds_text(line, " errors="@ + decimal(s.errors_total as nat))
            &&& s.errors_total > 0 ==> holds_text(
                line,
                " errors="@ + decimal(s.errors_total as nat) + " (client="@ + decimal(
                    s.error_client as nat,
                ) + " http="@ + decimal(s.error_http as nat) + " network="@ + decimal(
                    s.error_network as nat,
                ) + " file="@ + decimal(s.error_file as nat) + ")"@,
            )
            &&& line.len() == 17 + (if s.was_cancelled {
                9int
            } else {
                2int
            }) + 9 + f.elapsed@.len() + 10 + number(s.total_targets).len() + 11 + number(
                s.processed,
            ).len() + 14 + f.progress@.len() + 10 + f.rate@.len() + 5 + f.avg_ms@.len() + 11
                + number(s.downloaded_or_updated).len() + 11 + number(s.not_modified).len() + 11
                + number(s.cancelled).len() + 9 + number(s.total_retries).len() + (if s.total_retries
                > 0 {
                12 + number(s.retried_requests).len()
            } else {
                0
            }) + 8 + number(s.errors_total).len() + (if s.errors_total > 0 {
                9 + number(s.error_client).len() + 6 + number(s.error_http).len() + 9 + number(
                    s.error_network,
                ).len() + 6 + number(s.error_file).len() + 1
            } else {
                0
            })
        }),
{
    lemma_summary_status(s, f);
    lemma_summary_elapsed(s, f);
    lemma_summary_targets(s, f);
    lemma_summary_rate(s, f);
    lemma_summary_average(s, f);
    lemma_summary_updated(s, f);
    lemma_summary_cancelled(s, f);
    lemma_summary_retries(s, f);
    lemma_summary_errors(s, f);
    lemma_summary_length(s, f);
}

}
