//! Counting a stream of bytes, one read at a time.
//!
//! The accumulator owns the table while it is built. It is driven by the
//! outcomes of the reads on a stream: a read that delivered bytes is counted,
//! an interrupted read is passed over, the end of the stream finishes the
//! count and any other failure aborts it. Performing the reads is left to the
//! caller; what each outcome means for the count is decided here.

use crate::table::{
    counts_bytes,
    empty_table,
    lemma_histogram_sum,
    lemma_histogram_unique,
    lemma_occurrences_bounded,
    lemma_occurrences_push,
    occurrences,
    table_sum,
    ByteFrequencyTable,
};
use vstd::prelude::*;

verus! {

/// Size of the buffer that a stream is read into, in bytes.
pub const READ_BUFFER_SIZE: usize = 1_048_576;

/// What one read on a stream came back with.
#[derive(Clone, Copy, Debug)]
pub enum ReadOutcome<'a> {
    /// The read succeeded and delivered these bytes; none at the end of the
    /// stream.
    Data(&'a [u8]),
    /// The read was interrupted before it delivered anything.
    Interrupted,
    /// The read failed for good.
    Failed,
}

/// What to do after a read.
#[derive(Clone, Copy, Debug, PartialEq, Eq)]
pub enum NextStep {
    /// Read from the stream once more.
    ReadAgain,
    /// The stream is at its end: the count is complete.
    Finished,
    /// The stream cannot be read: the count is void.
    Aborted,
}

/// A stream failed for good before its end was reached.
#[derive(Clone, Copy, Debug, PartialEq, Eq)]
pub struct ReadError;

impl<'a> ReadOutcome<'a> {
    /// The bytes that the read delivered.
    pub open spec fn delivered(self) -> Seq<u8> {
        match self {
            ReadOutcome::Data(bytes) => bytes@,
            ReadOutcome::Interrupted => Seq::empty(),
            ReadOutcome::Failed => Seq::empty(),
        }
    }

    /// What follows the read: an interrupted read is tried again, a read
    /// that delivered nothing marks the end of the stream, and a failure
    /// ends the reading.
    pub open spec fn next_step(self) -> NextStep {
        match self {
            ReadOutcome::Data(bytes) => if bytes@.len() == 0 {
                NextStep::Finished
            } else {
                NextStep::ReadAgain
            },
            ReadOutcome::Interrupted => NextStep::ReadAgain,
            ReadOutcome::Failed => NextStep::Aborted,
        }
    }
}

/// The bytes that a stream delivers, given the outcomes of the reads on it in
/// order: those of every read up to the first one that ends the reading.
/// A stream whose reads are used up is at its end.
pub open spec fn stream_content(reads: Seq<ReadOutcome>) -> Seq<u8>
    decreases reads.len(),
{
    if reads.len() == 0 {
        Seq::empty()
    } else if reads[0].next_step() is ReadAgain {
        reads[0].delivered() + stream_content(reads.skip(1))
    } else {
        Seq::empty()
    }
}

/// Whether the reading of a stream is aborted: a read fails for good before
/// the end of the stream is reached.
pub open spec fn stream_fails(reads: Seq<ReadOutcome>) -> bool
    decreases reads.len(),
{
    if reads.len() == 0 {
        false
    } else {
        match reads[0].next_step() {
            NextStep::ReadAgain => stream_fails(reads.skip(1)),
            NextStep::Finished => false,
            NextStep::Aborted => true,
        }
    }
}

/// The reads of a stream without the interrupted ones.
pub open spec fn without_interruptions(reads: Seq<ReadOutcome>) -> Seq<ReadOutcome>
    decreases reads.len(),
{
    if reads.len() == 0 {
        reads
    } else if reads[0] is Interrupted {
        without_interruptions(reads.skip(1))
    } else {
        seq![reads[0]] + without_interruptions(reads.skip(1))
    }
}

/// Interrupted reads leave no trace: a stream delivers the same bytes, and
/// fails or not, as it would have done without them.
pub proof fn lemma_interruptions_leave_no_trace(reads: Seq<ReadOutcome>)
    ensures
        stream_content(without_interruptions(reads)) == stream_content(reads),
        stream_fails(without_interruptions(reads)) == stream_fails(reads),
    decreases reads.len(),
{
    if reads.len() > 0 {
        let rest = reads.skip(1);
        lemma_interruptions_leave_no_trace(rest);
        if reads[0] is Interrupted {
        } else {
            let kept = seq![reads[0]] + without_interruptions(rest);
            assert(kept.skip(1) =~= without_interruptions(rest));
        }
    }
}

/// A count of a stream with interrupted reads is the count of the same
/// stream read without interruption.
pub proof fn lemma_count_ignores_interruptions(
    reads: Seq<ReadOutcome>,
    interrupted: Seq<u64>,
    undisturbed: Seq<u64>,
)
    requires
        counts_bytes(interrupted, stream_content(reads)),
        counts_bytes(undisturbed, stream_content(without_interruptions(reads))),
    ensures
        interrupted == undisturbed,
        table_sum(interrupted) == table_sum(undisturbed) == stream_content(reads).len(),
{
    lemma_interruptions_leave_no_trace(reads);
    lemma_histogram_unique(interrupted, undisturbed, stream_content(reads));
    lemma_histogram_sum(interrupted, stream_content(reads));
}

/// An interruption at any place among the reads changes neither the bytes
/// that the stream delivers nor whether it fails.
pub proof fn lemma_interruption_is_invisible(reads: Seq<ReadOutcome>, at: int)
    requires
        0 <= at <= reads.len(),
    ensures
        stream_content(reads.insert(at, ReadOutcome::Interrupted)) == stream_content(reads),
        stream_fails(reads.insert(at, ReadOutcome::Interrupted)) == stream_fails(reads),
    decreases at,
{
    let interrupted = reads.insert(at, ReadOutcome::Interrupted);
    if at == 0 {
        assert(interrupted.skip(1) =~= reads);
    } else {
        lemma_interruption_is_invisible(reads.skip(1), at - 1);
        assert(interrupted.skip(1) =~= reads.skip(1).insert(at - 1, ReadOutcome::Interrupted));
    }
}

/// The table under construction, together with the bytes counted so far.
///
/// The accumulator stands for the sequence of all bytes that it has counted,
/// which is its view.
pub struct Accumulator {
    table: ByteFrequencyTable,
    total: u64,
    counted: Ghost<Seq<u8>>,
}

impl View for Accumulator {
    type V = Seq<u8>;

    /// All bytes counted so far, in the order in which they came.
    closed spec fn view(&self) -> Seq<u8> {
        self.counted@
    }
}

impl Accumulator {
    /// The table is the histogram of the bytes counted, and the total is
    /// their number.
    #[verifier::type_invariant]
    spec fn consistent(&self) -> bool {
        &&& counts_bytes(self.table@, self.counted@)
        &&& self.total == self.counted@.len()
    }

    /// An accumulator that has counted nothing yet.
    pub fn new() -> (fresh: Self)
        ensures
            fresh@ == Seq::<u8>::empty(),
    {
        Accumulator { table: empty_table(), total: 0, counted: Ghost(Seq::empty()) }
    }

    /// The number of bytes counted so far.
    pub fn total(&self) -> (total: u64)
        ensures
            total == self@.len(),
    {
        proof {
            use_type_invariant(self);
        }
        self.total
    }

    /// The number of times that `value` was counted so far.
    pub fn count(&self, value: u8) -> (count: u64)
        ensures
            count == occurrences(self@, value),
    {
        proof {
            use_type_invariant(self);
        }
        self.table[value as usize]
    }

    /// Whether `more` bytes can still be counted: the total is kept in 64
    /// bits.
    pub fn has_room_for(&self, more: usize) -> (fits: bool)
        ensures
            fits <==> self@.len() + more <= u64::MAX,
    {
        proof {
            use_type_invariant(self);
        }
        more as u64 <= u64::MAX - self.total
    }

    /// Counts every byte of `chunk`.
    pub fn absorb(&mut self, chunk: &[u8])
        requires
            old(self)@.len() + chunk@.len() <= u64::MAX,
        ensures
            final(self)@ == old(self)@ + chunk@,
    {
        proof {
            use_type_invariant(&*self);
        }
        let mut table = self.table;
        let mut total: u64 = self.total;
        let ghost mut counted = self.counted@;
        let mut done: usize = 0;
        while done < chunk.len()
            invariant
                done <= chunk.len(),
                counts_bytes(table@, counted),
                total == counted.len(),
                counted == old(self)@ + chunk@.take(done as int),
                old(self)@.len() + chunk@.len() <= u64::MAX,
            decreases chunk.len() - done,
        {
            let byte: u8 = chunk[done];
            let bucket: usize = byte as usize;
            proof {
                lemma_occurrences_bounded(counted, byte);
                assert forall|value: u8| #[trigger]
                    occurrences(counted.push(byte), value) == occurrences(counted, value)
                        + if value == byte {
                        1nat
                    } else {
                        0nat
                    } by {
                    lemma_occurrences_push(counted, byte, value);
                }
            }
            table[bucket] = table[bucket] + 1;
            total = total + 1;
            done += 1;
            proof {
                counted = counted.push(byte);
            }
        }
        *self = Accumulator { table, total, counted: Ghost(counted) };
    }

    /// Takes in the outcome of one read and says how to go on. Bytes that
    /// were delivered are counted. An interrupted or failed read changes
    /// nothing: what was counted before stays counted, once.
    pub fn on_read(&mut self, outcome: ReadOutcome<'_>) -> (next: NextStep)
        requires
            old(self)@.len() + outcome.delivered().len() <= u64::MAX,
        ensures
            final(self)@ == old(self)@ + outcome.delivered(),
            next == outcome.next_step(),
    {
        match outcome {
            ReadOutcome::Data(bytes) => {
                if bytes.len() == 0 {
                    NextStep::Finished
                } else {
                    self.absorb(bytes);
                    NextStep::ReadAgain
                }
            },
            ReadOutcome::Interrupted => NextStep::ReadAgain,
            ReadOutcome::Failed => NextStep::Aborted,
        }
    }

    /// Hands over the finished table and the number of bytes counted.
    pub fn finish(self) -> (counts: (Box<ByteFrequencyTable>, u64))
        ensures
            counts_bytes(counts.0@, self@),
            counts.1 == self@.len(),
            table_sum(counts.0@) == counts.1,
    {
        proof {
            use_type_invariant(&self);
            lemma_histogram_sum(self.table@, self.counted@);
        }
        (Box::new(self.table), self.total)
    }
}

/// Counts the bytes of a stream, given the outcomes of the reads on it in
/// order. Reading stops at the first read that delivers nothing, which is the
/// end of the stream, or that fails for good; a stream whose reads are used up
/// is at its end. Interrupted reads are passed over. On success the table is
/// the histogram of all bytes delivered, and the total is their number; a
/// failure voids the count.
pub fn read_file_content(reads: &[ReadOutcome<'_>]) -> (result: Result<
    (Box<ByteFrequencyTable>, u64),
    ReadError,
>)
    requires
        stream_content(reads@).len() <= u64::MAX,
    ensures
        result is Err <==> stream_fails(reads@),
        result matches Ok(counts) ==> {
            &&& counts_bytes(counts.0@, stream_content(reads@))
            &&& counts.1 == stream_content(reads@).len()
            &&& table_sum(counts.0@) == counts.1
        },
{
    let mut accumulator = Accumulator::new();
    let mut position: usize = 0;
    assert(reads@.skip(0) =~= reads@);
    while position < reads.len()
        invariant
            position <= reads.len(),
            stream_content(reads@) == accumulator@ + stream_content(reads@.skip(position as int)),
            stream_fails(reads@) == stream_fails(reads@.skip(position as int)),
            stream_content(reads@).len() <= u64::MAX,
        decreases reads.len() - position,
    {
        let outcome = reads[position];
        assert(reads@.skip(position as int).skip(1) =~= reads@.skip(position + 1));
        match accumulator.on_read(outcome) {
            NextStep::ReadAgain => {
                position += 1;
            },
            NextStep::Finished => {
                return Ok(accumulator.finish());
            },
            NextStep::Aborted => {
                return Err(ReadError);
            },
        }
    }
    Ok(accumulator.finish())
}

} // verus!
