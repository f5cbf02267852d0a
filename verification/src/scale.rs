//! Bar lengths and percentages, in exact arithmetic.
//!
//! A bucket's frequency is the fraction `count / total`. Bars are scaled by
//! the normalizer `total / max`, so that the most frequent value fills the
//! whole width. Both are fractions of integers, and everything derived from
//! them is computed here without rounding error: a bar length is the floor of
//! a quotient of integers, and a percentage is kept in hundredths of a
//! percent, rounded to the nearest hundredth.

use vstd::arithmetic::div_mod::{
    lemma_div_by_multiple,
    lemma_div_denominator,
    lemma_div_is_ordered,
    lemma_fundamental_div_mod,
};
use vstd::prelude::*;

verus! {

/// Width of a bar that is full, in characters.
pub const SCREEN_COLUMNS: usize = 72;

/// Hundredths of a percent in the whole: 100.00%.
pub const FULL_SHARE: u128 = 10_000;

/// The length of the bar of a bucket:
/// `floor(SCREEN_COLUMNS * frequency * normalizer)`, where the frequency is
/// `count / total` and the normalizer is `total / max`. The product of the
/// two fractions is `(count * total) / (total * max)`. A table without any
/// count has no normalizer and gets empty bars.
pub open spec fn scaled_bar(count: nat, total: nat, max: nat) -> nat {
    if total == 0 || max == 0 {
        0
    } else {
        (SCREEN_COLUMNS as nat * count * total) / (total * max)
    }
}

/// The quotient `numerator / denominator`, rounded to the nearest integer;
/// a quotient exactly halfway between two integers goes to the even one.
pub open spec fn round_half_even(numerator: nat, denominator: nat) -> nat
    recommends
        denominator > 0,
{
    let quotient = numerator / denominator;
    let remainder = numerator % denominator;
    if 2 * remainder < denominator || (2 * remainder == denominator && quotient % 2 == 0) {
        quotient
    } else {
        quotient + 1
    }
}

/// The share of `count` in `total`, in hundredths of a percent: `count /
/// total * 100`, rounded to two decimal places.
pub open spec fn percent_hundredths(count: nat, total: nat) -> nat
    recommends
        total > 0,
{
    round_half_even(FULL_SHARE as nat * count, total)
}

/// The total cancels out of the length of a bar: it is the floor of
/// `SCREEN_COLUMNS * count / max`.
pub proof fn lemma_scaled_bar_ignores_total(count: nat, total: nat, max: nat)
    requires
        total > 0,
        max > 0,
    ensures
        scaled_bar(count, total, max) == (SCREEN_COLUMNS as nat * count) / max,
{
    let columns = SCREEN_COLUMNS as int;
    let numerator = columns * count;
    lemma_div_by_multiple(numerator, total as int);
    lemma_div_denominator(numerator * total, total as int, max as int);
}

/// The bar of the most frequent value is full whenever that value occurs.
pub proof fn lemma_most_frequent_fills_bar(total: nat, max: nat)
    requires
        total > 0,
        max > 0,
    ensures
        scaled_bar(max, total, max) == SCREEN_COLUMNS,
{
    lemma_scaled_bar_ignores_total(max, total, max);
    lemma_div_by_multiple(SCREEN_COLUMNS as int, max as int);
}

/// No bar is longer than the full width, and a bar grows with its count.
pub proof fn lemma_scaled_bar_monotonic(smaller: nat, larger: nat, total: nat, max: nat)
    requires
        smaller <= larger <= max,
    ensures
        scaled_bar(smaller, total, max) <= scaled_bar(larger, total, max) <= SCREEN_COLUMNS,
{
    if total > 0 && max > 0 {
        lemma_scaled_bar_ignores_total(smaller, total, max);
        lemma_scaled_bar_ignores_total(larger, total, max);
        lemma_most_frequent_fills_bar(total, max);
        lemma_scaled_bar_ignores_total(max, total, max);
        let columns = SCREEN_COLUMNS as int;
        lemma_div_is_ordered(columns * smaller, columns * larger, max as int);
        lemma_div_is_ordered(columns * larger, columns * max, max as int);
    }
}

/// Rounding picks the nearest integer: the result is at most one half away
/// from the exact quotient, and where it is exactly one half away it is even.
pub proof fn lemma_round_half_even_is_nearest(numerator: nat, denominator: nat)
    requires
        denominator > 0,
    ensures
        ({
            let rounded = round_half_even(numerator, denominator);
            let error = rounded * denominator - numerator;
            &&& -(denominator as int) <= 2 * error <= denominator
            &&& (2 * error == denominator || 2 * error == -(denominator as int)) ==> rounded % 2
                == 0
        }),
{
    let quotient = numerator / denominator;
    let remainder = numerator % denominator;
    lemma_fundamental_div_mod(numerator as int, denominator as int);
    assert((quotient + 1) * denominator == quotient * denominator + denominator)
        by (nonlinear_arith);
}

/// A count that is the whole total is 100.00%, and a count of nothing is
/// 0.00%.
pub proof fn lemma_percent_extremes(total: nat)
    requires
        total > 0,
    ensures
        percent_hundredths(total, total) == FULL_SHARE,
        percent_hundredths(0, total) == 0,
{
    lemma_div_by_multiple(FULL_SHARE as int, total as int);
    lemma_fundamental_div_mod(FULL_SHARE as int * total, total as int);
    assert(0nat / total == 0 && 0nat % total == 0) by (nonlinear_arith)
        requires
            total > 0,
    ;
}

/// A count that is part of the total has a share of at most 100.00%.
pub proof fn lemma_percent_bounded(count: nat, total: nat)
    requires
        count <= total,
        total > 0,
    ensures
        percent_hundredths(count, total) <= FULL_SHARE,
{
    let full = FULL_SHARE as int;
    let numerator = full * count;
    lemma_fundamental_div_mod(numerator, total as int);
    let quotient = numerator / (total as int);
    let remainder = numerator % (total as int);
    assert(quotient <= full && (quotient == full ==> remainder == 0)) by (nonlinear_arith)
        requires
            numerator == total * quotient + remainder,
            0 <= remainder < total,
            numerator == full * count,
            count <= total,
            full > 0,
    ;
}

/// The length of the bar for a bucket that holds `count`, in a table whose
/// largest entry is `max`.
pub fn bar_length(count: u64, total: u64, max: u64) -> (length: usize)
    requires
        total > 0,
        count <= max,
    ensures
        length == scaled_bar(count as nat, total as nat, max as nat),
        max > 0 ==> length == (SCREEN_COLUMNS * count) / (max as int),
        length <= SCREEN_COLUMNS,
        count == max && max > 0 ==> length == SCREEN_COLUMNS,
{
    if max == 0 {
        return 0;
    }
    proof {
        lemma_scaled_bar_ignores_total(count as nat, total as nat, max as nat);
        lemma_scaled_bar_monotonic(count as nat, max as nat, total as nat, max as nat);
        lemma_most_frequent_fills_bar(total as nat, max as nat);
    }
    let scaled: u128 = SCREEN_COLUMNS as u128 * count as u128;
    let length: u128 = scaled / max as u128;
    length as usize
}

/// The share of `count` in `total`, in hundredths of a percent.
pub fn percentage(count: u64, total: u64) -> (hundredths: u128)
    requires
        total > 0,
    ensures
        hundredths == percent_hundredths(count as nat, total as nat),
{
    let numerator: u128 = FULL_SHARE * count as u128;
    let denominator: u128 = total as u128;
    let quotient: u128 = numerator / denominator;
    let remainder: u128 = numerator % denominator;
    let doubled: u128 = 2 * remainder;
    if doubled < denominator || (doubled == denominator && quotient % 2 == 0) {
        quotient
    } else {
        quotient + 1
    }
}

} // verus!
