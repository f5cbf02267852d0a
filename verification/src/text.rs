//! Numbers as text: hexadecimal bytes, decimals with two places, padding.
//!
//! Text is modelled as a sequence of characters. Each formatter has a spec
//! function that says which characters it produces, and builds a `String`
//! whose view is that sequence.

use vstd::prelude::*;
use vstd::string::*;

verus! {

/// The digits of the hexadecimal system in ascending order, in lower case.
/// The first ten are the digits of the decimal system.
pub open spec fn digits() -> Seq<char> {
    "0123456789abcdef"@
}

/// The character for a digit below sixteen.
pub open spec fn digit_char(digit: nat) -> char
    recommends
        digit < 16,
{
    digits()[digit as int]
}

/// A byte as two hexadecimal digits, in lower case.
pub open spec fn hex_byte(byte: u8) -> Seq<char> {
    seq![digit_char((byte / 16) as nat), digit_char((byte % 16) as nat)]
}

/// A number in decimal, without leading zeroes.
pub open spec fn decimal(number: nat) -> Seq<char>
    decreases number,
{
    if number < 10 {
        seq![digit_char(number)]
    } else {
        decimal(number / 10).push(digit_char(number % 10))
    }
}

/// A number of hundredths as a decimal with two places: 12345 is `123.45`.
pub open spec fn fixed2(hundredths: nat) -> Seq<char> {
    decimal(hundredths / 100) + seq![
        '.',
        digit_char(hundredths % 100 / 10),
        digit_char(hundredths % 10),
    ]
}

/// `count` copies of `fill`.
pub open spec fn repeated(fill: char, count: nat) -> Seq<char> {
    Seq::new(count, |i: int| fill)
}

/// `text` aligned to the right in a field of `width` characters: blanks are
/// put in front of a text that is shorter, and a longer one is left as it is.
pub open spec fn pad_left(text: Seq<char>, width: nat) -> Seq<char> {
    if text.len() < width {
        repeated(' ', (width - text.len()) as nat) + text
    } else {
        text
    }
}

/// A number in decimal has one digit at the least.
pub proof fn lemma_decimal_not_empty(number: nat)
    ensures
        decimal(number).len() >= 1,
    decreases number,
{
    if number >= 10 {
        lemma_decimal_not_empty(number / 10);
    }
}

/// A decimal with two places is four characters long below 10.00, five below
/// 100.00 and six below 1000.00, and never shorter than four.
pub proof fn lemma_fixed2_len(hundredths: nat)
    ensures
        hundredths < 1_000 ==> fixed2(hundredths).len() == 4,
        1_000 <= hundredths < 10_000 ==> fixed2(hundredths).len() == 5,
        10_000 <= hundredths < 100_000 ==> fixed2(hundredths).len() == 6,
        fixed2(hundredths).len() >= 4,
{
    reveal_with_fuel(decimal, 3);
    lemma_decimal_not_empty(hundredths / 100);
}

/// The one-character text of a digit below sixteen.
fn digit_str(digit: u8) -> (text: &'static str)
    requires
        digit < 16,
    ensures
        text@ == seq![digit_char(digit as nat)],
{
    let digits = "0123456789abcdef";
    proof {
        reveal_strlit("0123456789abcdef");
    }
    let at: usize = digit as usize;
    digits.substring_ascii(at, at + 1)
}

/// Appends `count` copies of the one-character text `piece` to `out`.
pub(crate) fn append_repeated(out: &mut String, piece: &str, count: usize)
    requires
        piece@.len() == 1,
    ensures
        final(out)@ == old(out)@ + repeated(piece@[0], count as nat),
{
    let mut done: usize = 0;
    while done < count
        invariant
            done <= count,
            piece@.len() == 1,
            out@ == old(out)@ + repeated(piece@[0], done as nat),
        decreases count - done,
    {
        out.append(piece);
        done += 1;
    }
}

/// Formats a byte as two hexadecimal digits, in lower case.
pub fn format_hex_byte(byte: u8) -> (text: String)
    ensures
        text@ == hex_byte(byte),
{
    let mut text = String::from_str(digit_str(byte / 16));
    text.append(digit_str(byte % 16));
    text
}

/// Formats a number in decimal, without leading zeroes.
pub fn format_decimal(number: u128) -> (text: String)
    ensures
        text@ == decimal(number as nat),
    decreases number,
{
    if number < 10 {
        String::from_str(digit_str(number as u8))
    } else {
        let mut text = format_decimal(number / 10);
        text.append(digit_str((number % 10) as u8));
        text
    }
}

/// Formats a number of hundredths as a decimal with two places.
pub fn format_fixed2(hundredths: u128) -> (text: String)
    ensures
        text@ == fixed2(hundredths as nat),
{
    let mut text = format_decimal(hundredths / 100);
    proof {
        reveal_strlit(".");
    }
    text.append(".");
    text.append(digit_str((hundredths % 100 / 10) as u8));
    text.append(digit_str((hundredths % 10) as u8));
    text
}

/// Aligns `text` to the right in a field of `width` characters.
pub fn format_padded(text: &str, width: usize) -> (padded: String)
    ensures
        padded@ == pad_left(text@, width as nat),
{
    let length: usize = text.unicode_len();
    let mut padded = String::from_str("");
    proof {
        reveal_strlit("");
        reveal_strlit(" ");
    }
    if length < width {
        append_repeated(&mut padded, " ", width - length);
    }
    padded.append(text);
    padded
}

} // verus!
