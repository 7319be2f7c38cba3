//! The combined file: ranges arrive in any order and are written in the order
//! of their sequence numbers.
//!
//! A range waits in a buffer until every range before it was written. A pass
//! over the buffer takes the ranges that are due, in batches, and has them
//! written one by one.

use std::collections::BTreeMap;
use std::path::PathBuf;
use vstd::prelude::*;
use vstd::string::*;

use crate::etag::{lookup, ETagCache};
use crate::hash_writer::{
    log_entry, log_entry_text, note_etag, with_etag, RangeError,
};
use crate::lines::{
    ends_with_newline, has_final_newline, law_data_is_prefixed_as_text, law_final_newline_is_kept,
    law_lines_of_joined_texts, law_open_text_ends_with_a_line, prefixed_text,
    prepend_prefix_to_lines, prepended, text_lines, NEWLINE,
};
use crate::outside::{is_file_name, join_path, path_joined, path_parts, takes_names, utf8_lossy};

verus! {

/// The name of the combined file.
pub const COMBINED_OUTPUT_FILENAME: &'static str = "pwned-passwords-combined.txt";

/// The most ranges that are taken out of the buffer at once.
pub const BATCH_LIMIT: usize = 100;

/// How many ranges lie between two reports of progress.
pub const PROGRESS_INTERVAL: u64 = 1000;

/// The combined file: in the output directory.
pub fn combined_output_path(output_dir: &PathBuf) -> (path: PathBuf)
    ensures
        path == path_joined(*output_dir, COMBINED_OUTPUT_FILENAME@),
        takes_names(path_parts(*output_dir)) ==> path_parts(path) == path_parts(*output_dir).push(
            COMBINED_OUTPUT_FILENAME@,
        ),
{
    proof {
        reveal_strlit("pwned-passwords-combined.txt");
        let name = COMBINED_OUTPUT_FILENAME@;
        assert(!name.contains('/') && !name.contains('\\') && !name.contains(':'));
        assert(name.len() > 2);
        assert(is_file_name(name));
    }
    join_path(output_dir, COMBINED_OUTPUT_FILENAME)
}

/// Whether a run appends to the combined file that it finds. A run that does
/// not resume an earlier one starts the file anew.
pub fn appends_to_file(resume: bool, file_exists: bool) -> (append: bool)
    ensures
        append == (resume && file_exists),
{
    resume && file_exists
}

/// A downloaded range that has not been written.
#[derive(Debug)]
pub struct BufferedRange {
    /// The prefix that the hashes of the range share.
    pub hash_prefix: String,
    /// The lines of the range, without the prefix.
    pub data: Vec<u8>,
    /// The ETag of the range.
    pub etag: Option<String>,
}

/// The lines of a range with the prefix in front of each.
pub open spec fn range_lines(range: BufferedRange) -> Seq<u8> {
    prepended(range.hash_prefix@, range.data@)
}

/// A range as it stands in the combined file, where it always ends with a
/// newline.
pub open spec fn rendered(range: BufferedRange) -> Seq<u8> {
    let lines = range_lines(range);
    if ends_with_newline(lines) {
        lines
    } else {
        lines.push(NEWLINE)
    }
}

/// Ranges as they stand in the combined file, one after the other.
pub open spec fn rendered_all(ranges: Seq<BufferedRange>) -> Seq<u8>
    decreases ranges.len(),
{
    if ranges.len() == 0 {
        Seq::empty()
    } else {
        rendered_all(ranges.drop_last()) + rendered(ranges.last())
    }
}

/// How many ranges are in the buffer without a gap from a sequence number on,
/// up to a limit. The greatest number has none after it, and is never due.
pub open spec fn ready(pending: Map<u64, BufferedRange>, next: int, limit: nat) -> nat
    decreases limit,
{
    if limit == 0 || !(0 <= next < u64::MAX && pending.contains_key(next as u64)) {
        0
    } else {
        1 + ready(pending, next + 1, (limit - 1) as nat)
    }
}

/// A number of ranges from a sequence number on.
pub open spec fn ranges_from(pending: Map<u64, BufferedRange>, next: int, count: nat) -> Seq<
    BufferedRange,
> {
    Seq::new(count, |i: int| pending[(next + i) as u64])
}

/// The buffer without a number of ranges from a sequence number on.
pub open spec fn without_ranges(pending: Map<u64, BufferedRange>, next: int, count: nat) -> Map<
    u64,
    BufferedRange,
> {
    pending.remove_keys(Set::new(|k: u64| next <= k < next + count))
}

/// The state of the combined file.
pub struct WriterState {
    /// The ranges in the buffer, by their sequence numbers.
    pub pending: Map<u64, BufferedRange>,
    /// The ranges that were taken out of the buffer and are about to be
    /// written.
    pub batch: Seq<BufferedRange>,
    /// The sequence number of the range that has to be written next.
    pub next: u64,
    /// The ranges that were written.
    pub written: Seq<BufferedRange>,
}

impl WriterState {
    /// The state of a file that nothing was written to.
    pub open spec fn initial() -> WriterState {
        WriterState {
            pending: Map::empty(),
            batch: Seq::empty(),
            next: 0,
            written: Seq::empty(),
        }
    }

    /// Whether the sequence numbers leave room for the batch, and the ranges
    /// that were written are those before the next one.
    pub open spec fn is_valid(self) -> bool {
        &&& self.next + self.batch.len() <= u64::MAX
        &&& self.written.len() == self.next
    }

    /// A range was put into the buffer, in place of one with the same number.
    pub open spec fn with_range(self, sequence: u64, range: BufferedRange) -> WriterState {
        WriterState { pending: self.pending.insert(sequence, range), ..self }
    }

    /// The ranges that are due were taken out of the buffer. What an earlier
    /// batch has left is gone.
    pub open spec fn with_batch(self) -> WriterState {
        let count = ready(self.pending, self.next as int, BATCH_LIMIT as nat);
        WriterState {
            pending: without_ranges(self.pending, self.next as int, count),
            batch: ranges_from(self.pending, self.next as int, count),
            ..self
        }
    }

    /// The first range of the batch was written.
    pub open spec fn with_written(self) -> WriterState {
        WriterState {
            batch: self.batch.drop_first(),
            next: (self.next + 1) as u64,
            written: self.written.push(self.batch[0]),
            ..self
        }
    }

    /// The first range of the batch could not be written. The batch is gone.
    pub open spec fn with_failure(self) -> WriterState {
        WriterState { batch: Seq::empty(), ..self }
    }
}

/// What to do next for the combined file.
#[derive(Debug)]
pub enum WriterAction {
    /// Append the data, and a newline if it needs one; report what came of it.
    Write { data: Vec<u8>, needs_newline: bool },
    /// Flush the file and the log, and report it.
    Flush,
    /// Nothing is due.
    Done,
}

/// Whether an action is to append a range.
pub open spec fn is_write_of(action: WriterAction, range: BufferedRange) -> bool {
    &&& action matches WriterAction::Write { data, needs_newline }
    &&& data@ == range_lines(range)
    &&& needs_newline == !ends_with_newline(range_lines(range))
}

/// Whether an action is what a batch leads to, which starts with its first
/// range or does not start.
pub open spec fn starts(action: WriterAction, batch: Seq<BufferedRange>) -> bool {
    if batch.len() > 0 {
        is_write_of(action, batch[0])
    } else {
        action is Done
    }
}

/// How far the combined file has come.
#[derive(Clone, Copy, Debug, PartialEq, Eq, Structural)]
pub struct Progress {
    pub next_sequence: u64,
    pub total_bytes: u64,
}

/// The combined file.
pub struct CombinedWriter {
    pending_buffer: BTreeMap<u64, BufferedRange>,
    batch: Vec<BufferedRange>,
    next_sequence: u64,
    total_bytes: u64,
    total_ranges: u64,
    current_length: usize,
    current_newline: bool,
    written: Ghost<Seq<BufferedRange>>,
}

impl View for CombinedWriter {
    type V = WriterState;

    closed spec fn view(&self) -> WriterState {
        WriterState {
            pending: self.pending_buffer@,
            batch: self.batch@,
            next: self.next_sequence,
            written: self.written@,
        }
    }
}

impl CombinedWriter {
    /// Whether the counters tell what was written.
    pub closed spec fn is_valid(self) -> bool {
        &&& self@.is_valid()
        &&& self.total_ranges == self.written@.len()
        &&& self.total_bytes == rendered_all(self.written@).len()
        &&& self.batch@.len() > 0 ==> {
            &&& self.current_length == range_lines(self.batch@[0]).len()
            &&& self.current_newline == !ends_with_newline(range_lines(self.batch@[0]))
        }
    }

    /// A combined file that nothing was written to.
    pub fn new() -> (writer: Self)
        ensures
            writer.is_valid(),
            writer@ == WriterState::initial(),
    {
        CombinedWriter {
            pending_buffer: BTreeMap::new(),
            batch: Vec::new(),
            next_sequence: 0,
            total_bytes: 0,
            total_ranges: 0,
            current_length: 0,
            current_newline: false,
            written: Ghost(Seq::empty()),
        }
    }

    /// How many ranges were written.
    pub fn total_ranges(&self) -> (count: u64)
        requires
            self.is_valid(),
        ensures
            count == self@.written.len(),
    {
        self.total_ranges
    }

    /// How many bytes were written.
    pub fn total_bytes(&self) -> (count: u64)
        requires
            self.is_valid(),
        ensures
            count == rendered_all(self@.written).len(),
    {
        self.total_bytes
    }

    /// Puts a range into the buffer. A range with the same number that still
    /// waits there is replaced.
    pub fn add_range(
        &mut self,
        sequence: u64,
        hash_prefix: String,
        data: Vec<u8>,
        etag: Option<String>,
    )
        requires
            old(self).is_valid(),
        ensures
            final(self).is_valid(),
            final(self)@ == old(self)@.with_range(
                sequence,
                (BufferedRange { hash_prefix, data, etag }),
            ),
    {
        self.pending_buffer.insert(sequence, BufferedRange { hash_prefix, data, etag });
    }

    /// The action that appends the first range of the batch.
    fn write_first(&mut self) -> (action: WriterAction)
        requires
            old(self).batch@.len() > 0,
        ensures
            final(self)@ == old(self)@,
            final(self).total_bytes == old(self).total_bytes,
            final(self).total_ranges == old(self).total_ranges,
            final(self).current_length == range_lines(old(self).batch@[0]).len(),
            final(self).current_newline == !ends_with_newline(range_lines(old(self).batch@[0])),
            is_write_of(action, old(self).batch@[0]),
    {
        let data = prepend_prefix_to_lines(
            self.batch[0].hash_prefix.as_str(),
            self.batch[0].data.as_slice(),
        );
        let needs_newline = !has_final_newline(data.as_slice());
        self.current_length = data.len();
        self.current_newline = needs_newline;
        WriterAction::Write { data, needs_newline }
    }

    /// Takes the ranges that are due out of the buffer, and starts to write
    /// them. They follow each other without a gap, from the first one that was
    /// not written on.
    pub fn write_pending_ranges(&mut self) -> (action: WriterAction)
        requires
            old(self).is_valid(),
        ensures
            final(self).is_valid(),
            final(self)@ == old(self)@.with_batch(),
            starts(action, final(self)@.batch),
    {
        let ghost start = self.pending_buffer@;
        let ghost next: int = self.next_sequence as int;
        let mut batch: Vec<BufferedRange> = Vec::new();
        let mut sequence: u64 = self.next_sequence;
        assert(start =~= without_ranges(start, next, 0));
        assert(batch@ =~= ranges_from(start, next, 0));
        let mut more: bool = true;
        while more && batch.len() < BATCH_LIMIT && sequence < u64::MAX
            invariant
                0 <= next,
                batch@.len() <= BATCH_LIMIT,
                sequence == next + batch@.len(),
                batch@ == ranges_from(start, next, batch@.len()),
                self.pending_buffer@ == without_ranges(start, next, batch@.len()),
                self.batch@ == old(self).batch@,
                self.next_sequence == old(self).next_sequence,
                self.written@ == old(self).written@,
                self.total_bytes == old(self).total_bytes,
                self.total_ranges == old(self).total_ranges,
                ready(start, next, BATCH_LIMIT as nat) == batch@.len() + if more {
                    ready(start, sequence as int, (BATCH_LIMIT - batch@.len()) as nat)
                } else {
                    0
                },
            decreases BATCH_LIMIT - batch@.len() + if more {
                1int
            } else {
                0int
            },
        {
            match self.pending_buffer.remove(&sequence) {
                Some(range) => {
                    assert(start.contains_key(sequence));
                    assert(start[sequence] == range);
                    let ghost count = batch@.len();
                    batch.push(range);
                    sequence = sequence + 1;
                    assert(batch@ =~= ranges_from(start, next, count + 1));
                    assert(self.pending_buffer@ =~= without_ranges(start, next, count + 1));
                },
                None => {
                    assert(!start.contains_key(sequence));
                    more = false;
                },
            }
        }
        self.batch = batch;
        if self.batch.len() == 0 {
            WriterAction::Done
        } else {
            self.write_first()
        }
    }

    /// Takes note that the first range of the batch was written: it counts,
    /// and the cache learns its ETag. Returns the line to log, and goes on with
    /// the batch.
    pub fn range_written(&mut self, cache: &mut ETagCache) -> (step: (String, WriterAction))
        requires
            old(self).is_valid(),
            old(self)@.batch.len() > 0,
            rendered_all(old(self)@.written).len() + rendered(old(self)@.batch[0]).len()
                <= u64::MAX,
        ensures
            final(self).is_valid(),
            final(self)@ == old(self)@.with_written(),
            final(cache).etags@ == with_etag(
                old(cache).etags@,
                old(self)@.batch[0].hash_prefix@,
                old(self)@.batch[0].etag,
            ),
            final(cache).mode == old(cache).mode,
            final(cache).path == old(cache).path,
            step.0@ == log_entry(
                old(self)@.next as nat,
                old(self)@.batch[0].hash_prefix@,
                rendered(old(self)@.batch[0]).len(),
                old(self)@.batch[0].etag,
            ) + "\n"@,
            if final(self)@.batch.len() > 0 {
                is_write_of(step.1, final(self)@.batch[0])
            } else {
                step.1 is Flush
            },
    {
        let ghost start = self@;
        let range = self.batch.remove(0);
        let bytes: u64 = self.current_length as u64 + if self.current_newline {
            1
        } else {
            0
        };
        assert(bytes == rendered(range).len());
        self.total_bytes = self.total_bytes + bytes;
        self.total_ranges = self.total_ranges + 1;
        note_etag(cache, range.hash_prefix.as_str(), &range.etag);
        let line = log_entry_text(
            self.next_sequence,
            range.hash_prefix.as_str(),
            bytes,
            &range.etag,
        ).concat("\n");
        self.next_sequence = self.next_sequence + 1;
        proof {
            self.written@ = self.written@.push(range);
            assert(self.written@.drop_last() =~= start.written);
            assert(self.batch@ =~= start.batch.drop_first());
            assert(self@.pending == start.pending);
        }
        let action = if self.batch.len() == 0 {
            WriterAction::Flush
        } else {
            self.write_first()
        };
        (line, action)
    }

    /// The same as `range_written`, for a caller who does not know that there
    /// is a range to write or that the bytes can be counted. Where either
    /// fails, nothing changes.
    pub fn try_range_written(&mut self, cache: &mut ETagCache) -> (step: Option<
        (String, WriterAction),
    >)
        requires
            old(self).is_valid(),
        ensures
            final(self).is_valid(),
            step is Some <==> old(self)@.batch.len() > 0 && rendered_all(old(self)@.written).len()
                + rendered(old(self)@.batch[0]).len() <= u64::MAX,
            step is None ==> final(self)@ == old(self)@ && *final(cache) == *old(cache),
            step matches Some((line, action)) ==> {
                &&& final(self)@ == old(self)@.with_written()
                &&& final(cache).etags@ == with_etag(
                    old(cache).etags@,
                    old(self)@.batch[0].hash_prefix@,
                    old(self)@.batch[0].etag,
                )
                &&& final(cache).mode == old(cache).mode
                &&& final(cache).path == old(cache).path
                &&& line@ == log_entry(
                    old(self)@.next as nat,
                    old(self)@.batch[0].hash_prefix@,
                    rendered(old(self)@.batch[0]).len(),
                    old(self)@.batch[0].etag,
                ) + "\n"@
                &&& if final(self)@.batch.len() > 0 {
                    is_write_of(action, final(self)@.batch[0])
                } else {
                    action is Flush
                }
            },
    {
        if self.batch.len() == 0 {
            return None;
        }
        let newline: u64 = if self.current_newline {
            1
        } else {
            0
        };
        let room: u64 = u64::MAX - self.total_bytes;
        if room < newline || room - newline < self.current_length as u64 {
            return None;
        }
        Some(self.range_written(cache))
    }

    /// Takes note that the first range of the batch could not be written: the
    /// cache forgets its ETag, so that a later run asks for it again, and the
    /// batch ends.
    pub fn range_failed(&mut self, cache: &mut ETagCache, reason: &str) -> (error: RangeError)
        requires
            old(self).is_valid(),
            old(self)@.batch.len() > 0,
        ensures
            final(self).is_valid(),
            final(self)@ == old(self)@.with_failure(),
            final(cache).etags@ == old(cache).etags@.remove(old(self)@.batch[0].hash_prefix@),
            final(cache).mode == old(cache).mode,
            final(cache).path == old(cache).path,
            error.spec_message() == "Failed to write range "@ + old(self)@.batch[0].hash_prefix@
                + ": "@ + reason@,
    {
        let range = self.batch.remove(0);
        self.batch = Vec::new();
        cache.etags.remove(range.hash_prefix.as_str());
        assert(self@.pending == old(self)@.pending);
        RangeError::new(
            "Failed to write range ".to_owned().concat(range.hash_prefix.as_str()).concat(
                ": ",
            ).concat(reason),
        )
    }

    /// Takes note that a batch was flushed, and goes on with what is due by
    /// now. How far the file has come is reported now and then.
    pub fn batch_flushed(&mut self) -> (step: (Option<Progress>, WriterAction))
        requires
            old(self).is_valid(),
        ensures
            final(self).is_valid(),
            final(self)@ == old(self)@.with_batch(),
            step.0 is Some <==> old(self)@.written.len() % (PROGRESS_INTERVAL as nat) == 0,
            step.0 matches Some(progress) ==> progress.next_sequence == old(self)@.next
                && progress.total_bytes == rendered_all(old(self)@.written).len(),
            starts(step.1, final(self)@.batch),
    {
        let progress = if self.total_ranges % PROGRESS_INTERVAL == 0 {
            Some(Progress { next_sequence: self.next_sequence, total_bytes: self.total_bytes })
        } else {
            None
        };
        (progress, self.write_pending_ranges())
    }
}

/// Every state that a writer reaches is valid: the laws about valid states hold
/// of it.
pub proof fn law_writer_state_is_valid(writer: CombinedWriter)
    requires
        writer.is_valid(),
    ensures
        writer@.is_valid(),
{
}

/// What an action appends to the combined file is the range as it stands
/// there.
pub proof fn law_appended_bytes(action: WriterAction, range: BufferedRange)
    requires
        is_write_of(action, range),
    ensures
        action matches WriterAction::Write { data, needs_newline } && data@ + (if needs_newline {
            seq![NEWLINE]
        } else {
            Seq::empty()
        }) == rendered(range),
{
    let lines = range_lines(range);
    assert(lines + seq![NEWLINE] =~= lines.push(NEWLINE));
    assert(lines + Seq::empty() =~= lines);
}

proof fn lemma_rendered_ends_with_newline(ranges: Seq<BufferedRange>)
    ensures
        rendered_all(ranges).len() > 0 ==> ends_with_newline(rendered_all(ranges)),
    decreases ranges.len(),
{
    if ranges.len() > 0 {
        assert(ends_with_newline(rendered(ranges.last())));
    }
}

/// The lines of the combined file are those of its ranges, one range after the
/// other: no line is joined to one of another range.
pub proof fn law_ranges_do_not_share_lines(ranges: Seq<BufferedRange>, range: BufferedRange)
    ensures
        text_lines(rendered_all(ranges.push(range))) == text_lines(rendered_all(ranges))
            + text_lines(rendered(range)),
{
    assert(ranges.push(range).drop_last() =~= ranges);
    lemma_rendered_ends_with_newline(ranges);
    law_lines_of_joined_texts(rendered_all(ranges), rendered(range));
}

/// The state once the whole batch was written.
pub open spec fn with_batch_written(state: WriterState) -> WriterState
    decreases state.batch.len(),
{
    if state.batch.len() == 0 {
        state
    } else {
        with_batch_written(state.with_written())
    }
}

/// Writing a whole batch moves its ranges, in order, behind those that were
/// written.
pub proof fn lemma_batch_written(state: WriterState)
    requires
        state.next + state.batch.len() <= u64::MAX,
    ensures
        ({
            let after = with_batch_written(state);
            &&& after.pending == state.pending
            &&& after.batch.len() == 0
            &&& after.next == state.next + state.batch.len()
            &&& after.written == state.written + state.batch
        }),
    decreases state.batch.len(),
{
    if state.batch.len() > 0 {
        lemma_batch_written(state.with_written());
        assert(state.written.push(state.batch[0]) + state.batch.drop_first() =~= state.written
            + state.batch);
    } else {
        assert(state.written + state.batch =~= state.written);
    }
}

/// The ranges that are ready are all in the buffer, and the next one is not
/// unless the limit was reached.
pub proof fn lemma_ready(pending: Map<u64, BufferedRange>, next: int, limit: nat)
    requires
        0 <= next <= u64::MAX,
    ensures
        ({
            let count = ready(pending, next, limit);
            &&& count <= limit
            &&& next + count <= u64::MAX
            &&& forall|i: int|
                next <= i < next + count ==> pending.contains_key(#[trigger] (i as u64))
            &&& count < limit && next + count < u64::MAX ==> !pending.contains_key(
                (next + count) as u64,
            )
        }),
    decreases limit,
{
    if limit > 0 && next < u64::MAX && pending.contains_key(next as u64) {
        lemma_ready(pending, next + 1, (limit - 1) as nat);
    }
}

/// The state after a pass over the buffer in which every range was written.
pub open spec fn after_pass(state: WriterState) -> WriterState
    decreases u64::MAX - state.next,
{
    let taken = state.with_batch();
    if taken.batch.len() == 0 {
        taken
    } else {
        proof {
            lemma_ready(state.pending, state.next as int, BATCH_LIMIT as nat);
            lemma_batch_written(taken);
        }
        after_pass(with_batch_written(taken))
    }
}

/// Whether a pass has led from one state to another by writing the ranges in
/// front of the first gap in the buffer.
pub open spec fn wrote_up_to_gap(before: WriterState, after: WriterState) -> bool {
    let count = (after.next - before.next) as nat;
    &&& before.next <= after.next
    &&& after.is_valid()
    &&& after.batch.len() == 0
    &&& after.written == before.written + ranges_from(before.pending, before.next as int, count)
    &&& after.pending == without_ranges(before.pending, before.next as int, count)
    &&& forall|k: u64|
        before.next <= k < after.next ==> #[trigger] before.pending.contains_key(k)
    &&& after.next < u64::MAX ==> !after.pending.contains_key(after.next)
}

/// A pass in which nothing fails writes all the ranges in front of the first
/// gap in the buffer, in the order of their numbers, and leaves the others
/// where they are.
pub proof fn law_pass_writes_up_to_gap(state: WriterState)
    requires
        state.is_valid(),
        state.batch.len() == 0,
    ensures
        wrote_up_to_gap(state, after_pass(state)),
    decreases u64::MAX - state.next,
{
    let next = state.next as int;
    let count = ready(state.pending, next, BATCH_LIMIT as nat);
    let taken = state.with_batch();
    lemma_ready(state.pending, next, BATCH_LIMIT as nat);
    if taken.batch.len() == 0 {
        assert(taken.pending =~= state.pending);
        assert(taken.written =~= state.written + ranges_from(state.pending, next, 0));
    } else {
        lemma_batch_written(taken);
        let middle = with_batch_written(taken);
        law_pass_writes_up_to_gap(middle);
        let after = after_pass(state);
        let total = (after.next - state.next) as nat;
        let rest = (total - count) as nat;
        assert forall|k: u64| state.next <= k < after.next implies
            #[trigger] state.pending.contains_key(k) by {
            if k < middle.next {
                assert(state.pending.contains_key((k as int) as u64));
            } else {
                assert(middle.pending.contains_key(k));
            }
        }
        assert(ranges_from(state.pending, next, count) + ranges_from(
            middle.pending,
            next + count,
            rest,
        ) =~= ranges_from(state.pending, next, total)) by {
            assert forall|i: int| 0 <= i < rest implies middle.pending[(next + count + i) as u64]
                == #[trigger] state.pending[(next + (count + i)) as u64] by {
                assert(middle.pending.contains_key((next + count + i) as u64));
            }
        }
        assert(after.written =~= state.written + ranges_from(state.pending, next, total));
        assert(after.pending =~= without_ranges(state.pending, next, total));
    }
}

/// The ETags once the whole batch was written, each range's noted in turn.
pub open spec fn etags_after_batch(
    state: WriterState,
    etags: Map<Seq<char>, String>,
) -> Map<Seq<char>, String>
    decreases state.batch.len(),
{
    if state.batch.len() == 0 {
        etags
    } else {
        etags_after_batch(
            state.with_written(),
            with_etag(etags, state.batch[0].hash_prefix@, state.batch[0].etag),
        )
    }
}

/// The ETags after a pass over the buffer in which every range was written.
pub open spec fn etags_after_pass(
    state: WriterState,
    etags: Map<Seq<char>, String>,
) -> Map<Seq<char>, String>
    decreases u64::MAX - state.next,
{
    let taken = state.with_batch();
    if taken.batch.len() == 0 {
        etags
    } else {
        proof {
            lemma_ready(state.pending, state.next as int, BATCH_LIMIT as nat);
            lemma_batch_written(taken);
        }
        etags_after_pass(with_batch_written(taken), etags_after_batch(taken, etags))
    }
}

/// The ETags after ranges were written one after the other.
pub open spec fn with_etags(
    etags: Map<Seq<char>, String>,
    ranges: Seq<BufferedRange>,
) -> Map<Seq<char>, String>
    decreases ranges.len(),
{
    if ranges.len() == 0 {
        etags
    } else {
        with_etag(
            with_etags(etags, ranges.drop_last()),
            ranges.last().hash_prefix@,
            ranges.last().etag,
        )
    }
}

proof fn lemma_with_etags_in_parts(
    etags: Map<Seq<char>, String>,
    first: Seq<BufferedRange>,
    second: Seq<BufferedRange>,
)
    ensures
        with_etags(etags, first + second) == with_etags(with_etags(etags, first), second),
    decreases second.len(),
{
    if second.len() == 0 {
        assert(first + second =~= first);
    } else {
        lemma_with_etags_in_parts(etags, first, second.drop_last());
        assert((first + second).drop_last() =~= first + second.drop_last());
    }
}

proof fn lemma_etags_after_batch(state: WriterState, etags: Map<Seq<char>, String>)
    ensures
        etags_after_batch(state, etags) == with_etags(etags, state.batch),
    decreases state.batch.len(),
{
    if state.batch.len() > 0 {
        let (first, rest) = (seq![state.batch[0]], state.batch.drop_first());
        let noted = with_etag(etags, state.batch[0].hash_prefix@, state.batch[0].etag);
        lemma_etags_after_batch(state.with_written(), noted);
        assert(first.drop_last() =~= Seq::empty());
        assert(with_etags(etags, first) == noted) by {
            reveal_with_fuel(with_etags, 2);
        }
        lemma_with_etags_in_parts(etags, first, rest);
        assert(first + rest =~= state.batch);
    }
}

proof fn lemma_etags_after_pass(state: WriterState, etags: Map<Seq<char>, String>)
    requires
        state.is_valid(),
        state.batch.len() == 0,
    ensures
        ({
            let after = after_pass(state);
            etags_after_pass(state, etags) == with_etags(
                etags,
                ranges_from(state.pending, state.next as int, (after.next - state.next) as nat),
            )
        }),
    decreases u64::MAX - state.next,
{
    let taken = state.with_batch();
    let after = after_pass(state);
    let newly = |s: WriterState|
        ranges_from(s.pending, s.next as int, (after.next - s.next) as nat);
    law_pass_writes_up_to_gap(state);
    if taken.batch.len() == 0 {
        assert(newly(state) =~= Seq::empty());
    } else {
        lemma_ready(state.pending, state.next as int, BATCH_LIMIT as nat);
        lemma_batch_written(taken);
        let middle = with_batch_written(taken);
        law_pass_writes_up_to_gap(middle);
        lemma_etags_after_pass(middle, etags_after_batch(taken, etags));
        lemma_etags_after_batch(taken, etags);
        lemma_with_etags_in_parts(etags, taken.batch, newly(middle));
        // What the pass wrote is the batch and what was written after it.
        let length = state.written.len() as int;
        assert((state.written + newly(state)).skip(length) =~= newly(state));
        assert((state.written + taken.batch + newly(middle)).skip(length) =~= taken.batch
            + newly(middle));
    }
}

/// Whether no two ranges share a prefix.
pub open spec fn prefixes_differ(ranges: Seq<BufferedRange>) -> bool {
    forall|i: int, j: int|
        0 <= i < j < ranges.len() ==> (#[trigger] ranges[i]).hash_prefix@ != (
        #[trigger] ranges[j]).hash_prefix@
}

/// Whether a range has this prefix and an ETag.
pub open spec fn gives_etag(range: BufferedRange, hash_prefix: Seq<char>) -> bool {
    range.hash_prefix@ == hash_prefix && range.etag is Some
}

proof fn lemma_with_etags(etags: Map<Seq<char>, String>, ranges: Seq<BufferedRange>)
    requires
        prefixes_differ(ranges),
    ensures
        forall|i: int|
            0 <= i < ranges.len() && (#[trigger] ranges[i]).etag is Some ==> lookup(
                with_etags(etags, ranges),
                ranges[i].hash_prefix@,
            ) == ranges[i].etag,
        forall|hash_prefix: Seq<char>|
            (forall|i: int| 0 <= i < ranges.len() ==> !gives_etag(#[trigger] ranges[i], hash_prefix))
                ==> #[trigger] lookup(with_etags(etags, ranges), hash_prefix) == lookup(
                etags,
                hash_prefix,
            ),
    decreases ranges.len(),
{
    if ranges.len() > 0 {
        let earlier = ranges.drop_last();
        let last = ranges.last();
        assert forall|i: int, j: int| 0 <= i < j < earlier.len() implies (
        #[trigger] earlier[i]).hash_prefix@ != (#[trigger] earlier[j]).hash_prefix@ by {
            assert(ranges[i].hash_prefix@ != ranges[j].hash_prefix@);
        }
        lemma_with_etags(etags, earlier);
        assert forall|i: int| 0 <= i < ranges.len() && (#[trigger] ranges[i]).etag is Some implies
            lookup(with_etags(etags, ranges), ranges[i].hash_prefix@) == ranges[i].etag by {
            if i < earlier.len() {
                assert(earlier[i] == ranges[i]);
                assert(ranges[i].hash_prefix@ != ranges[ranges.len() - 1].hash_prefix@);
            }
        }
        assert forall|hash_prefix: Seq<char>|
            (forall|i: int|
                0 <= i < ranges.len() ==> !gives_etag(
                    #[trigger] ranges[i],
                    hash_prefix,
                )) implies #[trigger] lookup(with_etags(etags, ranges), hash_prefix) == lookup(
            etags,
            hash_prefix,
        ) by {
            assert forall|i: int| 0 <= i < earlier.len() implies !gives_etag(
                #[trigger] earlier[i],
                hash_prefix,
            ) by {
                assert(!gives_etag(ranges[i], hash_prefix));
            }
            assert(!gives_etag(ranges[ranges.len() - 1], hash_prefix));
            assert(lookup(with_etags(etags, earlier), hash_prefix) == lookup(etags, hash_prefix));
        }
    }
}

/// What a pass in which nothing fails does to the cache, for ranges that do not
/// share a prefix: each range that it writes has its own ETag there, if it has
/// one, and every other key keeps what it had. A range that is written without
/// an ETag is such a key too.
pub proof fn law_pass_notes_etags(state: WriterState, etags: Map<Seq<char>, String>)
    requires
        state.is_valid(),
        state.batch.len() == 0,
        ({
            let count = (after_pass(state).next - state.next) as nat;
            prefixes_differ(ranges_from(state.pending, state.next as int, count))
        }),
    ensures
        ({
            let count = (after_pass(state).next - state.next) as nat;
            let written = ranges_from(state.pending, state.next as int, count);
            let after = etags_after_pass(state, etags);
            &&& after_pass(state).written == state.written + written
            &&& forall|i: int|
                0 <= i < written.len() && (#[trigger] written[i]).etag is Some ==> lookup(
                    after,
                    written[i].hash_prefix@,
                ) == written[i].etag
            &&& forall|hash_prefix: Seq<char>|
                (forall|i: int|
                    0 <= i < written.len() ==> !gives_etag(#[trigger] written[i], hash_prefix))
                    ==> #[trigger] lookup(after, hash_prefix) == lookup(etags, hash_prefix)
        }),
{
    let count = (after_pass(state).next - state.next) as nat;
    law_pass_writes_up_to_gap(state);
    lemma_etags_after_pass(state, etags);
    lemma_with_etags(etags, ranges_from(state.pending, state.next as int, count));
}

/// The state after ranges have arrived one by one, each followed by a pass in
/// which nothing failed.
pub open spec fn after_arrivals(arrivals: Seq<(u64, BufferedRange)>) -> WriterState
    decreases arrivals.len(),
{
    if arrivals.len() == 0 {
        WriterState::initial()
    } else {
        let (sequence, range) = arrivals.last();
        after_pass(after_arrivals(arrivals.drop_last()).with_range(sequence, range))
    }
}

/// Whether no two ranges arrive under the same number, and none under the
/// greatest one.
pub open spec fn arrive_once(arrivals: Seq<(u64, BufferedRange)>) -> bool {
    &&& forall|i: int| 0 <= i < arrivals.len() ==> (#[trigger] arrivals[i]).0 < u64::MAX
    &&& forall|i: int, j: int|
        0 <= i < j < arrivals.len() ==> (#[trigger] arrivals[i]).0 != (#[trigger] arrivals[j]).0
}

/// Whether a number is that of a range that has arrived.
pub open spec fn has_arrived(arrivals: Seq<(u64, BufferedRange)>, sequence: u64) -> bool {
    exists|i: int| 0 <= i < arrivals.len() && (#[trigger] arrivals[i]).0 == sequence
}

/// Whatever the order in which ranges arrive, those that were written are
/// exactly the ones in front of the first number that has not arrived, each in
/// its place; the others wait.
pub proof fn law_written_in_sequence(arrivals: Seq<(u64, BufferedRange)>)
    requires
        arrive_once(arrivals),
    ensures
        ({
            let state = after_arrivals(arrivals);
            &&& state.is_valid()
            &&& state.batch.len() == 0
            &&& forall|k: u64| k < state.next ==> #[trigger] has_arrived(arrivals, k)
            &&& !has_arrived(arrivals, state.next)
            &&& forall|i: int|
                0 <= i < arrivals.len() && (#[trigger] arrivals[i]).0 < state.next
                    ==> state.written[arrivals[i].0 as int] == arrivals[i].1
            &&& forall|i: int|
                0 <= i < arrivals.len() && (#[trigger] arrivals[i]).0 > state.next
                    ==> state.pending.contains_key(arrivals[i].0) && state.pending[arrivals[i].0]
                    == arrivals[i].1
            &&& forall|k: u64| #[trigger]
                state.pending.contains_key(k) ==> k > state.next && has_arrived(arrivals, k)
        }),
    decreases arrivals.len(),
{
    if arrivals.len() > 0 {
        let front = arrivals.drop_last();
        let (sequence, range) = arrivals.last();
        let last = arrivals.len() - 1;
        let earlier = after_arrivals(front);
        assert forall|i: int, j: int| 0 <= i < j < front.len() implies (#[trigger] front[i]).0 != (
        #[trigger] front[j]).0 by {
            assert(arrivals[i].0 != arrivals[j].0);
        }
        assert forall|i: int| 0 <= i < front.len() implies (#[trigger] front[i]).0 < u64::MAX by {
            assert(arrivals[i].0 < u64::MAX);
        }
        law_written_in_sequence(front);
        if has_arrived(front, sequence) {
            let i = choose|i: int| 0 <= i < front.len() && (#[trigger] front[i]).0 == sequence;
            assert(arrivals[i].0 != arrivals[last].0);
        }
        assert forall|k: u64| #[trigger] has_arrived(arrivals, k) <==> (has_arrived(front, k) || k
            == sequence) by {
            if has_arrived(front, k) {
                let i = choose|i: int| 0 <= i < front.len() && (#[trigger] front[i]).0 == k;
                assert(arrivals[i].0 == k);
            }
            if has_arrived(arrivals, k) && k != sequence {
                let i = choose|i: int| 0 <= i < arrivals.len() && (#[trigger] arrivals[i]).0 == k;
                assert(front[i].0 == k);
            }
            assert(arrivals[last].0 == sequence);
        }
        let added = earlier.with_range(sequence, range);
        law_pass_writes_up_to_gap(added);
        let state = after_arrivals(arrivals);
        assert(state == after_pass(added));
        // Every arrival that was not written before is in the buffer.
        assert forall|i: int|
            0 <= i < arrivals.len() && (#[trigger] arrivals[i]).0 >= earlier.next implies
            added.pending.contains_key(arrivals[i].0) && added.pending[arrivals[i].0]
            == arrivals[i].1 by {
            if i < last {
                assert(front[i] == arrivals[i]);
                assert(has_arrived(front, front[i].0));
                assert(arrivals[i].0 != arrivals[last].0);
            }
        }
        assert forall|k: u64| k < state.next implies #[trigger] has_arrived(arrivals, k) by {
            if k < earlier.next {
                assert(has_arrived(front, k));
            } else {
                assert(added.pending.contains_key(k));
                if k != sequence {
                    assert(earlier.pending.contains_key(k));
                }
            }
        }
        assert(!has_arrived(arrivals, state.next)) by {
            if has_arrived(arrivals, state.next) {
                let i = choose|i: int|
                    0 <= i < arrivals.len() && (#[trigger] arrivals[i]).0 == state.next;
                assert(arrivals[i].0 < u64::MAX);
                assert(added.pending.contains_key(arrivals[i].0));
            }
        }
        assert forall|i: int|
            0 <= i < arrivals.len() && (#[trigger] arrivals[i]).0 < state.next implies
            state.written[arrivals[i].0 as int] == arrivals[i].1 by {
            let k = arrivals[i].0;
            if k < earlier.next {
                if i == last {
                    assert(has_arrived(front, k));
                } else {
                    assert(front[i].0 < earlier.next);
                }
            }
        }
        assert forall|k: u64| #[trigger] state.pending.contains_key(k) implies k > state.next
            && has_arrived(arrivals, k) by {
            assert(added.pending.contains_key(k));
            if k != sequence {
                assert(earlier.pending.contains_key(k));
            }
            assert(k >= earlier.next);
        }
    }
}

/// Once all of the numbers below a bound have arrived, in any order, the file
/// holds all of the ranges in the order of their numbers, and none waits.
pub proof fn law_complete_file_is_in_order(arrivals: Seq<(u64, BufferedRange)>, count: u64)
    requires
        arrive_once(arrivals),
        forall|k: u64| #[trigger] has_arrived(arrivals, k) <==> k < count,
    ensures
        ({
            let state = after_arrivals(arrivals);
            &&& state.next == count
            &&& state.written.len() == count
            &&& state.pending == Map::<u64, BufferedRange>::empty()
            &&& forall|i: int|
                0 <= i < arrivals.len() ==> state.written[(#[trigger] arrivals[i]).0 as int]
                    == arrivals[i].1
        }),
{
    law_written_in_sequence(arrivals);
    let state = after_arrivals(arrivals);
    if state.next < count {
        assert(has_arrived(arrivals, state.next));
    }
    if state.next > count {
        assert(has_arrived(arrivals, count));
    }
    assert forall|k: u64| !(#[trigger] state.pending.contains_key(k)) by {
        if state.pending.contains_key(k) {
            assert(has_arrived(arrivals, k));
        }
    }
    assert(state.pending =~= Map::<u64, BufferedRange>::empty());
    assert forall|i: int| 0 <= i < arrivals.len() implies state.written[(
    #[trigger] arrivals[i]).0 as int] == arrivals[i].1 by {
        assert(has_arrived(arrivals, arrivals[i].0));
    }
}

/// How a range stands in the combined file: every line that is not empty, behind
/// the prefix and with a newline after it, whether the data ended with a newline or
/// not. A range without lines leaves one newline.
pub proof fn law_range_in_the_file(range: BufferedRange)
    ensures
        ({
            let lines = prefixed_text(
                vstd::utf8::encode_utf8(range.hash_prefix@),
                vstd::utf8::encode_utf8(utf8_lossy(range.data@)),
                true,
            );
            rendered(range) == (if lines.len() > 0 {
                lines
            } else {
                seq![10u8]
            })
        }),
{
    let prefix = vstd::utf8::encode_utf8(range.hash_prefix@);
    let text = vstd::utf8::encode_utf8(utf8_lossy(range.data@));
    law_data_is_prefixed_as_text(range.hash_prefix@, range.data@);
    law_final_newline_is_kept(prefix, text);
    let (closed, open) = (prefixed_text(prefix, text, true), prefixed_text(prefix, text, false));
    if closed.len() > 0 {
        assert(closed.last() == 10);
        law_data_is_prefixed_as_text(range.hash_prefix@, closed);
        assert(open.push(10) =~= open + seq![10u8]);
        if ends_with_newline(open) {
            // The last line is not empty, so that no newline stands before its end.
            law_open_text_ends_with_a_line(prefix, text);
        }
    } else {
        assert(range_lines(range) =~= Seq::empty());
        assert(rendered(range) =~= seq![10u8]);
    }
}

/// The combined file holds its ranges one after the other.
pub proof fn law_file_holds_ranges_in_turn(ranges: Seq<BufferedRange>, range: BufferedRange)
    ensures
        rendered_all(Seq::empty()) == Seq::<u8>::empty(),
        rendered_all(ranges.push(range)) == rendered_all(ranges) + rendered(range),
{
    assert(ranges.push(range).drop_last() =~= ranges);
}

/// What each operation does to the state. A new file has nothing. A range that
/// arrives goes into the buffer under its number. A batch holds the ranges that
/// are due, in the order of their numbers and no more than a hundred, and takes
/// them out of the buffer; it ends before that only at a number that is not there,
/// or at the greatest one. A range that was written moves from the front of the
/// batch to the end of the file. One that could not be written ends the batch, and
/// changes neither the file nor the buffer.
pub proof fn law_what_each_operation_does(
    state: WriterState,
    sequence: u64,
    range: BufferedRange,
    key: u64,
)
    ensures
        WriterState::initial() == (WriterState {
            pending: Map::empty(),
            batch: Seq::empty(),
            next: 0,
            written: Seq::empty(),
        }),
        state.with_range(sequence, range) == (WriterState {
            pending: state.pending.insert(sequence, range),
            ..state
        }),
        state.with_failure() == (WriterState { batch: Seq::empty(), ..state }),
        state.batch.len() > 0 && state.next < u64::MAX ==> state.with_written() == (WriterState {
            pending: state.pending,
            batch: state.batch.skip(1),
            next: (state.next + 1) as u64,
            written: state.written.push(state.batch[0]),
        }),
        ({
            let taken = state.with_batch();
            let count = taken.batch.len();
            &&& taken.next == state.next
            &&& taken.written == state.written
            &&& count <= 100
            &&& state.next + count <= u64::MAX
            &&& state.next <= key < state.next + count ==> state.pending.contains_key(key)
                && taken.batch[key - state.next] == state.pending[key]
                && !taken.pending.contains_key(key)
            &&& !(state.next <= key < state.next + count) ==> taken.pending.contains_key(key)
                == state.pending.contains_key(key) && (state.pending.contains_key(key)
                ==> taken.pending[key] == state.pending[key])
            &&& count < 100 && state.next + count < u64::MAX ==> !state.pending.contains_key(
                (state.next + count) as u64,
            )
        }),
{
    lemma_ready(state.pending, state.next as int, BATCH_LIMIT as nat);
    let count = ready(state.pending, state.next as int, BATCH_LIMIT as nat);
    if state.next <= key < state.next + count {
        assert(state.pending.contains_key((key as int) as u64));
    }
    assert(state.batch.drop_first() =~= state.batch.skip(1));
}

/// What is to be appended for a range, and how a batch begins: with its first
/// range, or not at all. A batch has up to a hundred ranges, and progress is
/// reported at every thousandth range.
pub proof fn law_how_a_batch_begins(action: WriterAction, batch: Seq<BufferedRange>)
    requires
        starts(action, batch),
    ensures
        batch.len() == 0 <==> action is Done,
        BATCH_LIMIT == 100 && PROGRESS_INTERVAL == 1000,
        batch.len() > 0 ==> action is Write && action->data@ + (if action->needs_newline {
            seq![10u8]
        } else {
            Seq::empty()
        }) == rendered(batch[0]),
{
    if batch.len() > 0 {
        law_appended_bytes(action, batch[0]);
    }
}

}
