//! Editing the times of a line of the flattened list: moving its start or
//! its end by a signed number of milliseconds within bounds, and setting
//! both back to the times the line was made with.
//!
//! Only the selected line ever changes. A move that would leave the bounds
//! is refused and changes nothing.

use vstd::prelude::*;
use crate::model::{line_views, DisplayLine, DisplayLineView};

verus! {

/// The least distance, in milliseconds, that an edit keeps between the start
/// and the end of a line.
pub const MIN_GAP_MS: u64 = 10;

/// How far past its present end, in milliseconds, the end of the last line
/// may be moved by one edit.
pub const LAST_LINE_CEILING_MS: u64 = 30_000;

/// The step of a normal adjustment, in milliseconds.
pub const NORMAL_TIME_ADJUST: i64 = 100;

/// The step of a fine adjustment, in milliseconds.
pub const FINE_TIME_ADJUST: i64 = 25;

/// How an adjustment ended.
#[derive(Debug, Clone, Copy, PartialEq, Eq)]
pub enum Adjustment {
    /// No line is selected, or the selected position is past the list.
    NoLine,
    /// Refused: the start would go below zero.
    BelowZero,
    /// Refused: the start would come within the least distance of the end,
    /// or pass it.
    WouldExceedEnd,
    /// Refused: the end would come within less than the least distance of
    /// the start, or precede it.
    WouldPrecedeStart,
    /// Refused: the end would pass the given latest end.
    WouldExceedMaximum(u64),
    /// Done: the time was moved.
    Adjusted,
}

/// Whether a position is selected that lies within a list of `len` lines.
pub open spec fn selects(selected: Option<usize>, len: nat) -> bool {
    selected is Some && selected->0 < len
}

/// `line` with another start.
pub open spec fn with_start(line: DisplayLineView, start: nat) -> DisplayLineView {
    DisplayLineView { start, ..line }
}

/// `line` with another end.
pub open spec fn with_end(line: DisplayLineView, end: nat) -> DisplayLineView {
    DisplayLineView { end, ..line }
}

/// How moving the start of `line` by `delta` ends.
pub open spec fn start_verdict(line: DisplayLineView, delta: int) -> Adjustment {
    if line.start + delta < 0 {
        Adjustment::BelowZero
    } else if line.end - (line.start + delta) <= MIN_GAP_MS {
        Adjustment::WouldExceedEnd
    } else {
        Adjustment::Adjusted
    }
}

/// `line` after an attempt to move its start by `delta`.
pub open spec fn start_moved(line: DisplayLineView, delta: int) -> DisplayLineView {
    if start_verdict(line, delta) == Adjustment::Adjusted {
        with_start(line, (line.start + delta) as nat)
    } else {
        line
    }
}

/// The latest end that line `idx` may be given: the start of the line after
/// it, or, for the last line, thirty seconds past its present end. No end
/// lies beyond the largest time that 64 bits hold.
pub open spec fn max_end(lines: Seq<DisplayLineView>, idx: int) -> int {
    if idx + 1 < lines.len() {
        lines[idx + 1].start as int
    } else if lines[idx].end + LAST_LINE_CEILING_MS <= u64::MAX {
        lines[idx].end + LAST_LINE_CEILING_MS
    } else {
        u64::MAX as int
    }
}

/// How moving the end of line `idx` by `delta` ends.
pub open spec fn end_verdict(lines: Seq<DisplayLineView>, idx: int, delta: int) -> Adjustment {
    let line = lines[idx];
    if line.end + delta < line.start + MIN_GAP_MS {
        Adjustment::WouldPrecedeStart
    } else if line.end + delta > max_end(lines, idx) {
        Adjustment::WouldExceedMaximum(max_end(lines, idx) as u64)
    } else {
        Adjustment::Adjusted
    }
}

/// Line `idx` after an attempt to move its end by `delta`.
pub open spec fn end_moved(lines: Seq<DisplayLineView>, idx: int, delta: int) -> DisplayLineView {
    if end_verdict(lines, idx, delta) == Adjustment::Adjusted {
        with_end(lines[idx], (lines[idx].end + delta) as nat)
    } else {
        lines[idx]
    }
}

/// `line` with the times it was made with.
pub open spec fn restored(line: DisplayLineView) -> DisplayLineView {
    DisplayLineView { start: line.original_start, end: line.original_end, ..line }
}

/// The list after an attempt to move the start of the selected line.
pub open spec fn after_adjust_start(
    lines: Seq<DisplayLineView>,
    selected: Option<usize>,
    delta: int,
) -> Seq<DisplayLineView> {
    if selects(selected, lines.len()) {
        lines.update(selected->0 as int, start_moved(lines[selected->0 as int], delta))
    } else {
        lines
    }
}

/// The list after an attempt to move the end of the selected line.
pub open spec fn after_adjust_end(
    lines: Seq<DisplayLineView>,
    selected: Option<usize>,
    delta: int,
) -> Seq<DisplayLineView> {
    if selects(selected, lines.len()) {
        lines.update(selected->0 as int, end_moved(lines, selected->0 as int, delta))
    } else {
        lines
    }
}

/// The list after the selected line is set back to its original times.
pub open spec fn after_reset(lines: Seq<DisplayLineView>, selected: Option<usize>) -> Seq<
    DisplayLineView,
> {
    if selects(selected, lines.len()) {
        lines.update(selected->0 as int, restored(lines[selected->0 as int]))
    } else {
        lines
    }
}

/// How an attempt to move the start of the selected line ends.
pub open spec fn start_outcome(
    lines: Seq<DisplayLineView>,
    selected: Option<usize>,
    delta: int,
) -> Adjustment {
    if selects(selected, lines.len()) {
        start_verdict(lines[selected->0 as int], delta)
    } else {
        Adjustment::NoLine
    }
}

/// How an attempt to move the end of the selected line ends.
pub open spec fn end_outcome(
    lines: Seq<DisplayLineView>,
    selected: Option<usize>,
    delta: int,
) -> Adjustment {
    if selects(selected, lines.len()) {
        end_verdict(lines, selected->0 as int, delta)
    } else {
        Adjustment::NoLine
    }
}

/// Moves the start of the selected line by `delta_ms` milliseconds.
///
/// The move is refused where the new start would be negative, and where the
/// end would then be ten milliseconds or less after it. Otherwise the start
/// is set; the end and every other line stay as they are. With no line
/// selected, or a position past the list, nothing happens.
pub fn adjust_start_time(lines: &mut Vec<DisplayLine>, selected: Option<usize>, delta_ms: i64) -> (r:
    Adjustment)
    ensures
        line_views(final(lines)@) == after_adjust_start(
            line_views(old(lines)@),
            selected,
            delta_ms as int,
        ),
        r == start_outcome(line_views(old(lines)@), selected, delta_ms as int),
{
    proof {
        assert(line_views(lines@).len() == lines@.len());
    }
    let idx: usize = match selected {
        Some(idx) => idx,
        None => {
            return Adjustment::NoLine;
        },
    };
    if idx >= lines.len() {
        return Adjustment::NoLine;
    }
    let ghost before = line_views(lines@);
    proof {
        assert(before[idx as int] == lines[idx as int]@);
    }
    let current_ms: i128 = lines[idx].start as i128;
    let new_ms: i128 = current_ms + delta_ms as i128;
    if new_ms < 0 {
        return Adjustment::BelowZero;
    }
    let end_ms: i128 = lines[idx].end as i128;
    if end_ms - new_ms <= MIN_GAP_MS as i128 {
        return Adjustment::WouldExceedEnd;
    }
    lines[idx].start = new_ms as u64;
    proof {
        assert(line_views(lines@) =~= after_adjust_start(before, selected, delta_ms as int));
    }
    Adjustment::Adjusted
}

/// Moves the end of the selected line by `delta_ms` milliseconds.
///
/// The latest end allowed is the start of the next line of the list, or,
/// for the last line, thirty seconds past its present end. The move is
/// refused where the new end would come less than ten milliseconds after the
/// start, and where it would pass the latest end. Otherwise the end is set;
/// the start and every other line stay as they are. With no line selected,
/// or a position past the list, nothing happens.
pub fn adjust_end_time(lines: &mut Vec<DisplayLine>, selected: Option<usize>, delta_ms: i64) -> (r:
    Adjustment)
    ensures
        line_views(final(lines)@) == after_adjust_end(
            line_views(old(lines)@),
            selected,
            delta_ms as int,
        ),
        r == end_outcome(line_views(old(lines)@), selected, delta_ms as int),
{
    proof {
        assert(line_views(lines@).len() == lines@.len());
    }
    let idx: usize = match selected {
        Some(idx) => idx,
        None => {
            return Adjustment::NoLine;
        },
    };
    if idx >= lines.len() {
        return Adjustment::NoLine;
    }
    let ghost before = line_views(lines@);
    let current_ms: i128 = lines[idx].end as i128;
    let max_end_ms: i128 = if idx < lines.len() - 1 {
        lines[idx + 1].start as i128
    } else if current_ms + LAST_LINE_CEILING_MS as i128 <= u64::MAX as i128 {
        current_ms + LAST_LINE_CEILING_MS as i128
    } else {
        u64::MAX as i128
    };
    proof {
        assert(before[idx as int] == lines[idx as int]@);
        if idx + 1 < lines.len() {
            assert(before[idx + 1] == lines[idx + 1]@);
        }
        assert(max_end_ms == max_end(before, idx as int));
    }
    let start_ms: i128 = lines[idx].start as i128;
    let new_ms: i128 = current_ms + delta_ms as i128;
    if new_ms < start_ms + MIN_GAP_MS as i128 {
        return Adjustment::WouldPrecedeStart;
    }
    if new_ms > max_end_ms {
        return Adjustment::WouldExceedMaximum(max_end_ms as u64);
    }
    lines[idx].end = new_ms as u64;
    proof {
        assert(line_views(lines@) =~= after_adjust_end(before, selected, delta_ms as int));
    }
    Adjustment::Adjusted
}

/// Sets the start and the end of the selected line back to the times the
/// line was made with. Returns whether a line was selected.
pub fn reset_times(lines: &mut Vec<DisplayLine>, selected: Option<usize>) -> (done: bool)
    ensures
        line_views(final(lines)@) == after_reset(line_views(old(lines)@), selected),
        done == selects(selected, line_views(old(lines)@).len()),
{
    proof {
        assert(line_views(lines@).len() == lines@.len());
    }
    let idx: usize = match selected {
        Some(idx) => idx,
        None => {
            return false;
        },
    };
    if idx >= lines.len() {
        return false;
    }
    let ghost before = line_views(lines@);
    let original_start = lines[idx].original_start;
    let original_end = lines[idx].original_end;
    lines[idx].start = original_start;
    lines[idx].end = original_end;
    proof {
        assert(line_views(lines@) =~= after_reset(before, selected));
    }
    true
}

} // verus!
