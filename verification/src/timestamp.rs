//! Timing lines of a caption file: `HH:MM:SS.mmm --> HH:MM:SS.mmm`.
//!
//! Times are whole milliseconds, held in 64 bits.

use vstd::prelude::*;
use crate::number::{decimal, parse_decimal};
use crate::strings::chars_of;
use crate::text::{split, split_text, trim, trim_text};

verus! {

/// The mark that stands between the two times of a timing line.
pub open spec fn arrow() -> Seq<char> {
    seq!['-', '-', '>']
}

/// The separator between hours, minutes and seconds.
pub open spec fn colon() -> Seq<char> {
    seq![':']
}

/// The separator between seconds and milliseconds.
pub open spec fn dot() -> Seq<char> {
    seq!['.']
}

/// Milliseconds in an hour.
pub const MILLIS_PER_HOUR: u64 = 3_600_000;

/// Milliseconds in a minute.
pub const MILLIS_PER_MINUTE: u64 = 60_000;

/// Milliseconds in a second.
pub const MILLIS_PER_SECOND: u64 = 1_000;

/// The time in milliseconds that `hours:minutes:seconds.millis` stands for.
pub open spec fn total_millis(hours: u64, minutes: u64, seconds: u64, millis: u64) -> nat {
    (hours * MILLIS_PER_HOUR + minutes * MILLIS_PER_MINUTE + seconds * MILLIS_PER_SECOND
        + millis) as nat
}

/// The time that a timestamp writes, in milliseconds.
///
/// A timestamp has exactly three fields between colons: hours, minutes and
/// seconds. The seconds field has exactly two parts around one dot: whole
/// seconds and milliseconds. Each of the four is an unsigned decimal number,
/// with white space around it allowed. No field is held to a range or a
/// width. A text of another shape, or one whose time does not fit in 64 bits,
/// writes no time.
pub open spec fn timestamp(ts: Seq<char>) -> Option<u64> {
    let fields = split(ts, colon());
    if fields.len() != 3 {
        None
    } else {
        let parts = split(fields[2], dot());
        if parts.len() != 2 {
            None
        } else {
            match (
                decimal(trim(fields[0])),
                decimal(trim(fields[1])),
                decimal(trim(parts[0])),
                decimal(trim(parts[1])),
            ) {
                (Some(h), Some(m), Some(s), Some(ms)) => if total_millis(h, m, s, ms) <= u64::MAX {
                    Some(total_millis(h, m, s, ms) as u64)
                } else {
                    None
                },
                _ => None,
            }
        }
    }
}

/// The start and end that a timing line writes, in milliseconds.
///
/// The line holds the arrow exactly once, with a timestamp on each side of
/// it; white space around a timestamp is allowed. Any other line writes no
/// range. The end is not held to come after the start.
pub open spec fn time_range(line: Seq<char>) -> Option<(u64, u64)> {
    let sides = split(line, arrow());
    if sides.len() != 2 {
        None
    } else {
        match (timestamp(trim(sides[0])), timestamp(trim(sides[1]))) {
            (Some(start), Some(end)) => Some((start, end)),
            _ => None,
        }
    }
}

/// The arrow, as characters.
pub fn arrow_pattern() -> (p: Vec<char>)
    ensures
        p@ == arrow(),
{
    let p: Vec<char> = vec!['-', '-', '>'];
    proof {
        assert(p@ =~= arrow());
    }
    p
}

/// A pattern of one character.
pub fn single(c: char) -> (p: Vec<char>)
    ensures
        p@ == seq![c],
{
    let p: Vec<char> = vec![c];
    proof {
        assert(p@ =~= seq![c]);
    }
    p
}

/// Reads the number in a field of a timestamp.
fn read_field(field: &Vec<char>) -> (r: Option<u64>)
    ensures
        r == decimal(trim(field@)),
{
    let trimmed = trim_text(field);
    parse_decimal(&trimmed)
}

/// Reads a timestamp given as characters.
pub fn read_timestamp(ts: &Vec<char>) -> (r: Option<u64>)
    ensures
        r == timestamp(ts@),
{
    let fields = split_text(ts, &single(':'));
    if fields.len() != 3 {
        return None;
    }
    let hours = read_field(&fields[0]);
    let minutes = read_field(&fields[1]);
    let parts = split_text(&fields[2], &single('.'));
    if parts.len() != 2 {
        return None;
    }
    let seconds = read_field(&parts[0]);
    let millis = read_field(&parts[1]);
    match (hours, minutes, seconds, millis) {
        (Some(h), Some(m), Some(s), Some(ms)) => {
            let total: u128 = h as u128 * MILLIS_PER_HOUR as u128 + m as u128
                * MILLIS_PER_MINUTE as u128 + s as u128 * MILLIS_PER_SECOND as u128 + ms as u128;
            if total <= u64::MAX as u128 {
                Some(total as u64)
            } else {
                None
            }
        },
        _ => None,
    }
}

/// Reads the time range of a timing line given as characters.
pub fn read_time_range(line: &Vec<char>) -> (r: Option<(u64, u64)>)
    ensures
        r == time_range(line@),
{
    let sides = split_text(line, &arrow_pattern());
    if sides.len() != 2 {
        return None;
    }
    let start = read_timestamp(&trim_text(&sides[0]));
    let end = read_timestamp(&trim_text(&sides[1]));
    match (start, end) {
        (Some(s), Some(e)) => Some((s, e)),
        _ => None,
    }
}

/// Reads a timestamp such as `00:01:02.500`; the result is in milliseconds.
pub fn parse_timestamp(timestamp: &str) -> (r: Option<u64>)
    ensures
        r == self::timestamp(timestamp@),
{
    read_timestamp(&chars_of(timestamp))
}

/// Reads a timing line such as `00:00:01.000 --> 00:00:02.000`; the result
/// is the start and the end in milliseconds.
pub fn parse_time_range(line: &str) -> (r: Option<(u64, u64)>)
    ensures
        r == time_range(line@),
{
    read_time_range(&chars_of(line))
}

} // verus!
