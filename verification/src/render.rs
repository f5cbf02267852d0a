//! The histogram as text.
//!
//! The report is a summary line followed by one line per byte value, in
//! ascending order of the value. A line shows the value in hexadecimal, a bar
//! of fixed width between two delimiters, and the value's share of the input
//! as a percentage.

use crate::scale::{
    bar_length,
    lemma_most_frequent_fills_bar,
    lemma_percent_bounded,
    lemma_percent_extremes,
    lemma_scaled_bar_ignores_total,
    lemma_scaled_bar_monotonic,
    percent_hundredths,
    percentage,
    scaled_bar,
    FULL_SHARE,
    SCREEN_COLUMNS,
};
use crate::table::{
    counts_bytes,
    frequency_max,
    frequency_min,
    lemma_histogram_unique,
    lemma_single_byte_histogram,
    lemma_uniform_table,
    max_count,
    min_count,
    ByteFrequencyTable,
    BUCKETS,
};
use crate::text::{
    append_repeated,
    decimal,
    fixed2,
    format_fixed2,
    format_hex_byte,
    format_padded,
    hex_byte,
    lemma_fixed2_len,
    pad_left,
    repeated,
};
use vstd::prelude::*;
use vstd::string::*;

verus! {

/// Number of lines of a report: the summary and one line per byte value.
pub const REPORT_LINES: usize = 257;

/// Width of the field that holds a line's percentage.
pub const PERCENT_WIDTH: usize = 5;

/// The line for one byte value: the value as two hexadecimal digits, a bar of
/// `*` filled up with blanks to the full width between two `|`, and the
/// percentage with two decimal places, aligned to the right in its field.
pub open spec fn row_text(byte: u8, count: nat, total: nat, max: nat) -> Seq<char>
    recommends
        total > 0,
        count <= max,
{
    let bar = scaled_bar(count, total, max);
    hex_byte(byte) + " |"@ + repeated('*', bar) + repeated(' ', (SCREEN_COLUMNS - bar) as nat)
        + "|"@ + pad_left(fixed2(percent_hundredths(count, total)), PERCENT_WIDTH as nat) + "%"@
}

/// The summary line: the shares of the rarest and of the most frequent byte
/// value, and the distance between the two in percentage points.
pub open spec fn summary_text(min: nat, max: nat, total: nat) -> Seq<char>
    recommends
        total > 0,
        min <= max,
{
    "(range: "@ + fixed2(percent_hundredths(min, total)) + "% - "@ + fixed2(
        percent_hundredths(max, total),
    ) + "%, distribution: "@ + fixed2(percent_hundredths((max - min) as nat, total)) + "pt.)"@
}

/// The text shown in place of a histogram when there was no input.
pub open spec fn empty_input_text() -> Seq<char> {
    "(input is empty)"@
}

/// The lines of the report on `table`: the summary, then the line of each
/// byte value from 0x00 to 0xff. No line is left out, whatever its count.
pub open spec fn histogram_lines(table: Seq<u64>, total: nat) -> Seq<Seq<char>>
    recommends
        table.len() == BUCKETS,
        total > 0,
{
    Seq::new(
        REPORT_LINES as nat,
        |i: int|
            if i == 0 {
                summary_text(min_count(table) as nat, max_count(table) as nat, total)
            } else {
                row_text((i - 1) as u8, table[i - 1] as nat, total, max_count(table) as nat)
            },
    )
}

/// The report is a function of the input alone: any two counts of the same
/// bytes are rendered line for line alike.
pub proof fn lemma_same_input_same_report(first: Seq<u64>, second: Seq<u64>, bytes: Seq<u8>)
    requires
        counts_bytes(first, bytes),
        counts_bytes(second, bytes),
    ensures
        first == second,
        histogram_lines(first, bytes.len()) == histogram_lines(second, bytes.len()),
{
    lemma_histogram_unique(first, second, bytes);
}

/// In every line the bar and its padding fill the same width between the two
/// delimiters, and the line of the most frequent byte value, if that value
/// occurs at all, has a bar without padding.
pub proof fn lemma_row_layout(byte: u8, count: nat, total: nat, max: nat)
    requires
        total > 0,
        count <= max,
    ensures
        ({
            let row = row_text(byte, count, total, max);
            let bar = scaled_bar(count, total, max);
            &&& bar <= SCREEN_COLUMNS
            &&& row.len() >= 4 + SCREEN_COLUMNS + 1 + PERCENT_WIDTH + 1
            &&& row.subrange(0, 2) == hex_byte(byte)
            &&& row[2] == ' '
            &&& row[3] == '|'
            &&& forall|i: int| 4 <= i < 4 + bar ==> row[i] == '*'
            &&& forall|i: int| 4 + bar <= i < 4 + SCREEN_COLUMNS ==> row[i] == ' '
            &&& row[4 + SCREEN_COLUMNS as int] == '|'
            &&& row.last() == '%'
            &&& count == max && max > 0 ==> bar == SCREEN_COLUMNS
        }),
{
    reveal_strlit(" |");
    reveal_strlit("|");
    reveal_strlit("%");
    lemma_scaled_bar_monotonic(count, max, total, max);
    if max > 0 {
        lemma_most_frequent_fills_bar(total, max);
    }
}

/// A line is 83 characters wide, and one more where the share is 100.00%.
pub proof fn lemma_row_width(byte: u8, count: nat, total: nat, max: nat)
    requires
        total > 0,
        count <= max,
        count <= total,
    ensures
        percent_hundredths(count, total) <= FULL_SHARE,
        row_text(byte, count, total, max).len() == if percent_hundredths(count, total)
            < FULL_SHARE {
            83nat
        } else {
            84nat
        },
{
    reveal_strlit(" |");
    reveal_strlit("|");
    reveal_strlit("%");
    lemma_scaled_bar_monotonic(count, max, total, max);
    lemma_percent_bounded(count, total);
    lemma_fixed2_len(percent_hundredths(count, total));
}

/// A byte value that does not occur keeps its line: the bar is empty and
/// the share is 0.00%.
pub proof fn lemma_absent_value_row(byte: u8, total: nat, max: nat)
    requires
        total > 0,
    ensures
        row_text(byte, 0, total, max) == hex_byte(byte) + " |"@ + repeated(
            ' ',
            SCREEN_COLUMNS as nat,
        ) + "| 0.00%"@,
{
    reveal_strlit("|");
    reveal_strlit("%");
    reveal_strlit("| 0.00%");
    reveal_strlit("0123456789abcdef");
    lemma_percent_extremes(total);
    lemma_scaled_bar_monotonic(0, 0, total, max);
    if max > 0 {
        lemma_scaled_bar_ignores_total(0, total, max);
    }
}

/// For an input of a single byte the smallest share is 0.00% and the largest
/// is 100.00%.
pub proof fn lemma_single_byte_report(table: Seq<u64>, value: u8)
    requires
        counts_bytes(table, seq![value]),
    ensures
        percent_hundredths(min_count(table) as nat, 1) == 0,
        percent_hundredths(max_count(table) as nat, 1) == 10_000,
        histogram_lines(table, 1)[0] == "(range: 0.00% - 100.00%, distribution: 100.00pt.)"@,
{
    lemma_single_byte_histogram(table, value);
    lemma_percent_extremes(1);
    reveal_with_fuel(decimal, 3);
    reveal_strlit("(range: ");
    reveal_strlit("% - ");
    reveal_strlit("%, distribution: ");
    reveal_strlit("pt.)");
    reveal_strlit("(range: 0.00% - 100.00%, distribution: 100.00pt.)");
    reveal_strlit("0123456789abcdef");
}

/// Where every byte value occurs equally often, all shares are the same and
/// every bar is full.
pub proof fn lemma_uniform_report(table: Seq<u64>, count: u64, total: nat)
    requires
        table.len() == BUCKETS,
        forall|i: int| 0 <= i < BUCKETS ==> #[trigger] table[i] == count,
        count > 0,
        total > 0,
    ensures
        percent_hundredths(min_count(table) as nat, total) == percent_hundredths(
            max_count(table) as nat,
            total,
        ),
        percent_hundredths((max_count(table) - min_count(table)) as nat, total) == 0,
        forall|i: int|
            0 <= i < BUCKETS ==> scaled_bar(
                #[trigger] table[i] as nat,
                total,
                max_count(table) as nat,
            ) == SCREEN_COLUMNS,
{
    lemma_uniform_table(table, count);
    lemma_percent_extremes(total);
    lemma_most_frequent_fills_bar(total, count as nat);
}

/// What there is to show for a table and its total.
#[derive(Debug, PartialEq, Eq)]
pub enum Report {
    /// Nothing was counted: there are no frequencies to show.
    EmptyInput,
    /// The lines of the histogram, the summary first.
    Histogram(Vec<String>),
}

/// Renders the line of one byte value that occurs `count` times, in a table
/// whose largest entry is `max`.
pub fn render_row(byte: u8, count: u64, total: u64, max: u64) -> (line: String)
    requires
        total > 0,
        count <= max,
    ensures
        line@ == row_text(byte, count as nat, total as nat, max as nat),
{
    let bar: usize = bar_length(count, total, max);
    let share = format_fixed2(percentage(count, total));
    let field = format_padded(share.as_str(), PERCENT_WIDTH);
    proof {
        reveal_strlit("*");
        reveal_strlit(" ");
    }
    let mut line = format_hex_byte(byte);
    line.append(" |");
    append_repeated(&mut line, "*", bar);
    append_repeated(&mut line, " ", SCREEN_COLUMNS - bar);
    line.append("|");
    line.append(field.as_str());
    line.append("%");
    line
}

/// Renders the summary line for a table whose smallest entry is `min` and
/// whose largest is `max`.
pub fn render_summary(min: u64, max: u64, total: u64) -> (line: String)
    requires
        total > 0,
        min <= max,
    ensures
        line@ == summary_text(min as nat, max as nat, total as nat),
{
    let least = format_fixed2(percentage(min, total));
    let greatest = format_fixed2(percentage(max, total));
    let spread = format_fixed2(percentage(max - min, total));
    let mut line = String::from_str("(range: ");
    line.append(least.as_str());
    line.append("% - ");
    line.append(greatest.as_str());
    line.append("%, distribution: ");
    line.append(spread.as_str());
    line.append("pt.)");
    line
}

/// Renders the report on `table`: the summary line, then one line for each
/// byte value in ascending order.
pub fn render(table: &ByteFrequencyTable, total: u64) -> (lines: Vec<String>)
    requires
        total > 0,
    ensures
        lines@.len() == REPORT_LINES,
        lines.deep_view() == histogram_lines(table@, total as nat),
{
    let min: u64 = frequency_min(table);
    let max: u64 = frequency_max(table);
    let mut lines: Vec<String> = Vec::new();
    lines.push(render_summary(min, max, total));
    let mut value: usize = 0;
    while value < BUCKETS
        invariant
            value <= BUCKETS,
            total > 0,
            min == min_count(table@),
            max == max_count(table@),
            forall|i: int| 0 <= i < BUCKETS ==> #[trigger] table@[i] <= max,
            lines@.len() == value + 1,
            forall|i: int|
                0 <= i <= value ==> (#[trigger] lines@[i])@ == histogram_lines(
                    table@,
                    total as nat,
                )[i],
        decreases BUCKETS - value,
    {
        let line = render_row(value as u8, table[value], total, max);
        lines.push(line);
        value += 1;
    }
    lines
}

/// The message for an input without bytes.
pub fn empty_input_message() -> (text: String)
    ensures
        text@ == empty_input_text(),
{
    String::from_str("(input is empty)")
}

/// Decides what to show for a table and its total: the histogram, or nothing
/// but the fact that the input was empty. No share is computed of an empty
/// input.
pub fn report(table: &ByteFrequencyTable, total: u64) -> (shown: Report)
    ensures
        total == 0 <==> shown is EmptyInput,
        shown matches Report::Histogram(lines) ==> lines.deep_view() == histogram_lines(
            table@,
            total as nat,
        ),
{
    if total == 0 {
        Report::EmptyInput
    } else {
        Report::Histogram(render(table, total))
    }
}

} // verus!
