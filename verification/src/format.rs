//! Naming of transcript output files.
//!
//! A transcript may also be written as a plain-text file whose name
//! carries the creation time, `tx-<year>-<month>-<day>-<hhmmss>.txt`,
//! with every part zero-padded to a fixed width.

use vstd::prelude::*;

use crate::text::push_char;

verus! {

/// Decimal digit as a character.
pub open spec fn digit_char(d: int) -> char
    recommends
        0 <= d <= 9,
{
    (('0' as u8) + d as u8) as char
}

/// A number rendered as exactly two decimal digits.
pub open spec fn two_digits(n: int) -> Seq<char>
    recommends
        0 <= n < 100,
{
    seq![digit_char(n / 10), digit_char(n % 10)]
}

/// A number rendered as exactly four decimal digits.
pub open spec fn four_digits(n: int) -> Seq<char>
    recommends
        0 <= n < 10000,
{
    two_digits(n / 100) + two_digits(n % 100)
}

/// The file name for a transcript created at the given local time.
pub open spec fn output_filename_spec(
    year: int,
    month: int,
    day: int,
    hour: int,
    minute: int,
    second: int,
) -> Seq<char> {
    seq!['t', 'x', '-'] + four_digits(year) + seq!['-'] + two_digits(month) + seq!['-']
        + two_digits(day) + seq!['-'] + two_digits(hour) + two_digits(minute) + two_digits(second)
        + seq!['.', 't', 'x', 't']
}

/// Appends a number as exactly two decimal digits.
fn push_two_digits(r: &mut String, n: u32)
    requires
        n < 100,
    ensures
        final(r)@ == old(r)@ + two_digits(n as int),
{
    push_char(r, (('0' as u8) + (n / 10) as u8) as char);
    push_char(r, (('0' as u8) + (n % 10) as u8) as char);
    proof {
        assert(r@ =~= old(r)@ + two_digits(n as int));
    }
}

/// Renders the name of the transcript file for a creation time.
pub fn output_filename(year: u32, month: u32, day: u32, hour: u32, minute: u32, second: u32) -> (r:
    String)
    requires
        year < 10000,
        month < 100,
        day < 100,
        hour < 100,
        minute < 100,
        second < 100,
    ensures
        r@ == output_filename_spec(
            year as int,
            month as int,
            day as int,
            hour as int,
            minute as int,
            second as int,
        ),
{
    let mut r = String::new();
    push_char(&mut r, 't');
    push_char(&mut r, 'x');
    push_char(&mut r, '-');
    push_two_digits(&mut r, year / 100);
    push_two_digits(&mut r, year % 100);
    push_char(&mut r, '-');
    push_two_digits(&mut r, month);
    push_char(&mut r, '-');
    push_two_digits(&mut r, day);
    push_char(&mut r, '-');
    push_two_digits(&mut r, hour);
    push_two_digits(&mut r, minute);
    push_two_digits(&mut r, second);
    push_char(&mut r, '.');
    push_char(&mut r, 't');
    push_char(&mut r, 'x');
    push_char(&mut r, 't');
    proof {
        assert(r@ =~= output_filename_spec(
            year as int,
            month as int,
            day as int,
            hour as int,
            minute as int,
            second as int,
        ));
    }
    r
}

} // verus!
