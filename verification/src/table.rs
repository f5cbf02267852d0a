//! The frequency table and its mathematical model.
//!
//! A table is an array of 256 counters, indexed by byte value. Its meaning is
//! stated over the sequence of bytes that were counted into it: bucket `v`
//! holds the number of positions of that sequence at which `v` stands.

use vstd::prelude::*;

verus! {

/// Number of distinct byte values, and so of buckets in a table.
pub const BUCKETS: usize = 256;

/// One counter per byte value, in ascending order of the byte value.
pub type ByteFrequencyTable = [u64; 256];

/// How many positions of `bytes` hold `value`.
pub open spec fn occurrences(bytes: Seq<u8>, value: u8) -> nat
    decreases bytes.len(),
{
    if bytes.len() == 0 {
        0
    } else {
        occurrences(bytes.drop_last(), value) + if bytes.last() == value {
            1nat
        } else {
            0nat
        }
    }
}

/// `table` is the histogram of `bytes`: each bucket holds the number of
/// occurrences of its byte value.
pub open spec fn counts_bytes(table: Seq<u64>, bytes: Seq<u8>) -> bool {
    &&& table.len() == BUCKETS
    &&& forall|i: int| 0 <= i < BUCKETS ==> #[trigger] table[i] == occurrences(bytes, i as u8)
}

/// The sum of all entries of `table`.
pub open spec fn table_sum(table: Seq<u64>) -> nat
    decreases table.len(),
{
    if table.len() == 0 {
        0
    } else {
        table_sum(table.drop_last()) + table.last() as nat
    }
}

/// The smallest entry of `table` (0 for a table without entries).
pub open spec fn min_count(table: Seq<u64>) -> u64
    decreases table.len(),
{
    if table.len() == 0 {
        0
    } else if table.len() == 1 {
        table[0]
    } else {
        let rest = min_count(table.drop_last());
        if table.last() < rest {
            table.last()
        } else {
            rest
        }
    }
}

/// The largest entry of `table` (0 for a table without entries).
pub open spec fn max_count(table: Seq<u64>) -> u64
    decreases table.len(),
{
    if table.len() == 0 {
        0
    } else if table.len() == 1 {
        table[0]
    } else {
        let rest = max_count(table.drop_last());
        if table.last() > rest {
            table.last()
        } else {
            rest
        }
    }
}

/// Appending one byte raises the count of that byte's value by one and leaves
/// all other counts as they were.
pub proof fn lemma_occurrences_push(bytes: Seq<u8>, byte: u8, value: u8)
    ensures
        occurrences(bytes.push(byte), value) == occurrences(bytes, value) + if byte == value {
            1nat
        } else {
            0nat
        },
{
    assert(bytes.push(byte).drop_last() =~= bytes);
}

/// No value occurs more often than there are bytes.
pub proof fn lemma_occurrences_bounded(bytes: Seq<u8>, value: u8)
    ensures
        occurrences(bytes, value) <= bytes.len(),
    decreases bytes.len(),
{
    if bytes.len() > 0 {
        lemma_occurrences_bounded(bytes.drop_last(), value);
    }
}

/// Counting is additive over concatenation: how the bytes are cut into
/// chunks does not change the counts.
pub proof fn lemma_occurrences_concat(front: Seq<u8>, back: Seq<u8>, value: u8)
    ensures
        occurrences(front + back, value) == occurrences(front, value) + occurrences(back, value),
    decreases back.len(),
{
    if back.len() == 0 {
        assert(front + back =~= front);
    } else {
        assert((front + back).drop_last() =~= front + back.drop_last());
        lemma_occurrences_concat(front, back.drop_last(), value);
    }
}

/// The number of positions of `bytes` that hold a value below `bound`.
spec fn occurrences_below(bytes: Seq<u8>, bound: nat) -> nat
    decreases bound,
{
    if bound == 0 {
        0
    } else {
        occurrences_below(bytes, (bound - 1) as nat) + occurrences(bytes, (bound - 1) as u8)
    }
}

proof fn lemma_occurrences_below_none(bound: nat)
    ensures
        occurrences_below(Seq::<u8>::empty(), bound) == 0,
    decreases bound,
{
    if bound > 0 {
        lemma_occurrences_below_none((bound - 1) as nat);
    }
}

proof fn lemma_occurrences_below_push(bytes: Seq<u8>, byte: u8, bound: nat)
    requires
        bound <= BUCKETS,
    ensures
        occurrences_below(bytes.push(byte), bound) == occurrences_below(bytes, bound) + if byte
            < bound {
            1nat
        } else {
            0nat
        },
    decreases bound,
{
    if bound > 0 {
        lemma_occurrences_below_push(bytes, byte, (bound - 1) as nat);
        lemma_occurrences_push(bytes, byte, (bound - 1) as u8);
    }
}

proof fn lemma_occurrences_below_all(bytes: Seq<u8>)
    ensures
        occurrences_below(bytes, BUCKETS as nat) == bytes.len(),
    decreases bytes.len(),
{
    if bytes.len() == 0 {
        assert(bytes =~= Seq::<u8>::empty());
        lemma_occurrences_below_none(BUCKETS as nat);
    } else {
        lemma_occurrences_below_all(bytes.drop_last());
        lemma_occurrences_below_push(bytes.drop_last(), bytes.last(), BUCKETS as nat);
        assert(bytes.drop_last().push(bytes.last()) =~= bytes);
    }
}

proof fn lemma_prefix_sum(table: Seq<u64>, bytes: Seq<u8>, n: nat)
    requires
        counts_bytes(table, bytes),
        n <= BUCKETS,
    ensures
        table_sum(table.take(n as int)) == occurrences_below(bytes, n),
    decreases n,
{
    if n > 0 {
        lemma_prefix_sum(table, bytes, (n - 1) as nat);
        assert(table.take(n as int).drop_last() =~= table.take(n - 1));
    }
}

/// The entries of a histogram add up to the number of bytes counted.
pub proof fn lemma_histogram_sum(table: Seq<u64>, bytes: Seq<u8>)
    requires
        counts_bytes(table, bytes),
    ensures
        table_sum(table) == bytes.len(),
{
    lemma_prefix_sum(table, bytes, BUCKETS as nat);
    lemma_occurrences_below_all(bytes);
    assert(table.take(BUCKETS as int) =~= table);
}

/// A sequence of bytes has exactly one histogram.
pub proof fn lemma_histogram_unique(first: Seq<u64>, second: Seq<u64>, bytes: Seq<u8>)
    requires
        counts_bytes(first, bytes),
        counts_bytes(second, bytes),
    ensures
        first == second,
{
    assert(first =~= second);
}

/// The smallest entry is an entry, and no entry is below it.
pub proof fn lemma_min_count_is_least(table: Seq<u64>)
    requires
        table.len() > 0,
    ensures
        exists|i: int| 0 <= i < table.len() && table[i] == min_count(table),
        forall|i: int| 0 <= i < table.len() ==> min_count(table) <= #[trigger] table[i],
    decreases table.len(),
{
    if table.len() == 1 {
        assert(table[0] == min_count(table));
    } else {
        let front = table.drop_last();
        lemma_min_count_is_least(front);
        let at = choose|i: int| 0 <= i < front.len() && front[i] == min_count(front);
        assert(table[at] == min_count(front));
        assert(table[table.len() - 1] == table.last());
        assert forall|i: int| 0 <= i < table.len() implies min_count(table)
            <= #[trigger] table[i] by {
            if i < front.len() {
                assert(table[i] == front[i]);
            }
        }
    }
}

/// The largest entry is an entry, and no entry is above it.
pub proof fn lemma_max_count_is_greatest(table: Seq<u64>)
    requires
        table.len() > 0,
    ensures
        exists|i: int| 0 <= i < table.len() && table[i] == max_count(table),
        forall|i: int| 0 <= i < table.len() ==> #[trigger] table[i] <= max_count(table),
    decreases table.len(),
{
    if table.len() == 1 {
        assert(table[0] == max_count(table));
    } else {
        let front = table.drop_last();
        lemma_max_count_is_greatest(front);
        let at = choose|i: int| 0 <= i < front.len() && front[i] == max_count(front);
        assert(table[at] == max_count(front));
        assert(table[table.len() - 1] == table.last());
        assert forall|i: int| 0 <= i < table.len() implies #[trigger] table[i] <= max_count(
            table,
        ) by {
            if i < front.len() {
                assert(table[i] == front[i]);
            }
        }
    }
}

/// The histogram of a single byte holds a one in the bucket of that byte's
/// value and zeroes elsewhere; its smallest entry is 0 and its largest is 1.
pub proof fn lemma_single_byte_histogram(table: Seq<u64>, value: u8)
    requires
        counts_bytes(table, seq![value]),
    ensures
        table[value as int] == 1,
        forall|i: int| 0 <= i < BUCKETS && i != value ==> #[trigger] table[i] == 0,
        table_sum(table) == 1,
        min_count(table) == 0,
        max_count(table) == 1,
{
    let bytes = seq![value];
    assert forall|i: int| 0 <= i < BUCKETS implies #[trigger] table[i] == if i == value {
        1u64
    } else {
        0u64
    } by {
        assert(occurrences(bytes.drop_last(), i as u8) == 0);
    }
    lemma_histogram_sum(table, bytes);
    lemma_min_count_is_least(table);
    lemma_max_count_is_greatest(table);
    let other: int = if value == 0 {
        1
    } else {
        0
    };
    assert(table[other] == 0);
    assert(table[value as int] == 1);
}

/// A table whose entries are all the same has that entry as its smallest and
/// as its largest.
pub proof fn lemma_uniform_table(table: Seq<u64>, count: u64)
    requires
        table.len() > 0,
        forall|i: int| 0 <= i < table.len() ==> #[trigger] table[i] == count,
    ensures
        min_count(table) == count,
        max_count(table) == count,
{
    lemma_min_count_is_least(table);
    lemma_max_count_is_greatest(table);
}

/// A table of zeroes: the histogram of no bytes.
pub fn empty_table() -> (table: ByteFrequencyTable)
    ensures
        counts_bytes(table@, Seq::<u8>::empty()),
        forall|i: int| 0 <= i < BUCKETS ==> table@[i] == 0,
{
    [0u64; 256]
}

/// The smallest entry of `table`.
pub fn frequency_min(table: &ByteFrequencyTable) -> (least: u64)
    ensures
        least == min_count(table@),
        exists|i: int| 0 <= i < BUCKETS && table@[i] == least,
        forall|i: int| 0 <= i < BUCKETS ==> least <= #[trigger] table@[i],
{
    let mut least: u64 = table[0];
    let mut next: usize = 1;
    assert(table@.take(1) =~= seq![table@[0]]);
    while next < BUCKETS
        invariant
            1 <= next <= BUCKETS,
            least == min_count(table@.take(next as int)),
        decreases BUCKETS - next,
    {
        assert(table@.take(next + 1).drop_last() =~= table@.take(next as int));
        if table[next] < least {
            least = table[next];
        }
        next += 1;
    }
    proof {
        assert(table@.take(BUCKETS as int) =~= table@);
        lemma_min_count_is_least(table@);
    }
    least
}

/// The largest entry of `table`.
pub fn frequency_max(table: &ByteFrequencyTable) -> (greatest: u64)
    ensures
        greatest == max_count(table@),
        exists|i: int| 0 <= i < BUCKETS && table@[i] == greatest,
        forall|i: int| 0 <= i < BUCKETS ==> #[trigger] table@[i] <= greatest,
{
    let mut greatest: u64 = table[0];
    let mut next: usize = 1;
    assert(table@.take(1) =~= seq![table@[0]]);
    while next < BUCKETS
        invariant
            1 <= next <= BUCKETS,
            greatest == max_count(table@.take(next as int)),
        decreases BUCKETS - next,
    {
        assert(table@.take(next + 1).drop_last() =~= table@.take(next as int));
        if table[next] > greatest {
            greatest = table[next];
        }
        next += 1;
    }
    proof {
        assert(table@.take(BUCKETS as int) =~= table@);
        lemma_max_count_is_greatest(table@);
    }
    greatest
}

} // verus!
