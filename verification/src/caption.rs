//! Reading a caption file: every timed text line becomes a segment that
//! carries the timed text lines around it as context.

use vstd::prelude::*;
use crate::model::{
    entry_views, match_views, ContextEntry, ContextEntryView, MatchResult, MatchResultView,
    Segment, SegmentView,
};
use crate::strings::{chars_of, string_of};
use crate::text::{contains, has_substring, lines, rows, split_lines, trim, trim_text};
use crate::timestamp::{arrow, arrow_pattern, read_time_range, time_range};

verus! {

/// The most context entries that a segment carries on each side.
pub const MAX_CONTEXT: usize = 5;

/// A timing line is a line that holds the arrow.
pub open spec fn is_timing_line(line: Seq<char>) -> bool {
    contains(line, arrow())
}

/// A text line is a line that is no timing line and holds more than white
/// space.
pub open spec fn is_text_line(line: Seq<char>) -> bool {
    !is_timing_line(line) && trim(line).len() > 0
}

/// The time range that holds at line `i`: the one written by the nearest
/// timing line before it. There is none where no timing line comes before
/// line `i`, or where the nearest one cannot be read.
pub open spec fn time_before(lines: Seq<Seq<char>>, i: int) -> Option<(u64, u64)>
    decreases i,
{
    if i <= 0 || i > lines.len() {
        None
    } else if is_timing_line(lines[i - 1]) {
        time_range(lines[i - 1])
    } else {
        time_before(lines, i - 1)
    }
}

/// What line `i` contributes: its trimmed text with the time range that
/// holds there, if it is a text line and a time range holds.
pub open spec fn entry_at(lines: Seq<Seq<char>>, i: int) -> Option<ContextEntryView> {
    if 0 <= i < lines.len() && is_text_line(lines[i]) {
        match time_before(lines, i) {
            Some((start, end)) => Some(
                ContextEntryView { text: trim(lines[i]), start: start as nat, end: end as nat },
            ),
            None => None,
        }
    } else {
        None
    }
}

/// The timed text lines among the first `n` lines, in file order.
pub open spec fn entries(lines: Seq<Seq<char>>, n: int) -> Seq<ContextEntryView>
    decreases n,
{
    if n <= 0 {
        Seq::empty()
    } else {
        match entry_at(lines, n - 1) {
            Some(e) => entries(lines, n - 1).push(e),
            None => entries(lines, n - 1),
        }
    }
}

/// The context before entry `p`: up to five entries that precede it, the
/// nearest first.
pub open spec fn context_before(all: Seq<ContextEntryView>, p: int) -> Seq<ContextEntryView> {
    Seq::new(
        (if p < MAX_CONTEXT {
            p
        } else {
            MAX_CONTEXT as int
        }) as nat,
        |j: int| all[p - 1 - j],
    )
}

/// The context after entry `p`: up to five entries that follow it, in file
/// order.
pub open spec fn context_after(all: Seq<ContextEntryView>, p: int) -> Seq<ContextEntryView> {
    all.subrange(
        p + 1,
        if p + 1 + MAX_CONTEXT < all.len() {
            p + 1 + MAX_CONTEXT
        } else {
            all.len() as int
        },
    )
}

/// The segment made of entry `p`, with its context.
pub open spec fn match_at(file: Seq<char>, all: Seq<ContextEntryView>, p: int) -> MatchResultView {
    MatchResultView {
        segment: SegmentView { file, text: all[p].text, start: all[p].start, end: all[p].end },
        context_before: context_before(all, p),
        context_after: context_after(all, p),
    }
}

/// The segments of a caption file, given by its lines: one for each timed
/// text line, in file order.
pub open spec fn captions(file: Seq<char>, lines: Seq<Seq<char>>) -> Seq<MatchResultView> {
    let all = entries(lines, lines.len() as int);
    Seq::new(all.len(), |p: int| match_at(file, all, p))
}

/// The timed text lines of a caption file, in file order.
pub fn read_entries(lines: &Vec<Vec<char>>) -> (all: Vec<ContextEntry>)
    ensures
        entry_views(all@) == entries(rows(lines@), lines.len() as int),
{
    let pattern = arrow_pattern();
    let mut all: Vec<ContextEntry> = Vec::new();
    let mut current: Option<(u64, u64)> = None;
    let mut i: usize = 0;
    proof {
        assert(entry_views(all@) =~= Seq::<ContextEntryView>::empty());
    }
    while i < lines.len()
        invariant
            i <= lines.len(),
            pattern@ == arrow(),
            current == time_before(rows(lines@), i as int),
            entry_views(all@) == entries(rows(lines@), i as int),
        decreases lines.len() - i,
    {
        let ghost text_lines = rows(lines@);
        let ghost before = entry_views(all@);
        let line = &lines[i];
        proof {
            assert(text_lines[i as int] == line@);
        }
        if has_substring(line, &pattern) {
            current = read_time_range(line);
        } else {
            let trimmed = trim_text(line);
            if trimmed.len() > 0 {
                match current {
                    Some((start, end)) => {
                        let entry = ContextEntry { text: string_of(&trimmed), start, end };
                        all.push(entry);
                        proof {
                            assert(entry_views(all@) =~= before.push(entry@));
                        }
                    },
                    None => {},
                }
            }
        }
        i += 1;
    }
    all
}

/// The context before entry `p` of `all`.
fn gather_before(all: &Vec<ContextEntry>, p: usize) -> (r: Vec<ContextEntry>)
    requires
        p < all.len(),
    ensures
        entry_views(r@) == context_before(entry_views(all@), p as int),
{
    let mut r: Vec<ContextEntry> = Vec::new();
    let mut j: usize = 0;
    while j < MAX_CONTEXT && j < p
        invariant
            p < all.len(),
            j <= MAX_CONTEXT,
            j <= p,
            r.len() == j,
            forall|k: int| 0 <= k < j ==> r[k]@ == all[p - 1 - k]@,
        decreases MAX_CONTEXT - j,
    {
        r.push(all[p - 1 - j].clone());
        j += 1;
    }
    proof {
        assert(entry_views(r@) =~= context_before(entry_views(all@), p as int));
    }
    r
}

/// The context after entry `p` of `all`.
fn gather_after(all: &Vec<ContextEntry>, p: usize) -> (r: Vec<ContextEntry>)
    requires
        p < all.len(),
    ensures
        entry_views(r@) == context_after(entry_views(all@), p as int),
{
    let mut r: Vec<ContextEntry> = Vec::new();
    let mut j: usize = 0;
    while j < MAX_CONTEXT && j < all.len() - 1 - p
        invariant
            p < all.len(),
            j <= MAX_CONTEXT,
            j <= all.len() - 1 - p,
            r.len() == j,
            forall|k: int| 0 <= k < j ==> r[k]@ == all[p + 1 + k]@,
        decreases MAX_CONTEXT - j,
    {
        r.push(all[p + 1 + j].clone());
        j += 1;
    }
    proof {
        assert(entry_views(r@) =~= context_after(entry_views(all@), p as int));
    }
    r
}

/// The segments of a caption file whose lines are given as characters.
pub fn read_captions(file: &str, lines: &Vec<Vec<char>>) -> (r: Vec<MatchResult>)
    ensures
        match_views(r@) == captions(file@, rows(lines@)),
{
    let all = read_entries(lines);
    let mut r: Vec<MatchResult> = Vec::new();
    let mut p: usize = 0;
    while p < all.len()
        invariant
            p <= all.len(),
            r.len() == p,
            forall|k: int| 0 <= k < p ==> r[k]@ == match_at(file@, entry_views(all@), k),
        decreases all.len() - p,
    {
        let entry = &all[p];
        let found = MatchResult {
            segment: Segment {
                file: file.to_owned(),
                text: entry.text.clone(),
                start: entry.start,
                end: entry.end,
            },
            context_before: gather_before(&all, p),
            context_after: gather_after(&all, p),
        };
        proof {
            assert(entry_views(all@)[p as int] == entry@);
        }
        r.push(found);
        p += 1;
    }
    proof {
        assert(match_views(r@) =~= captions(file@, rows(lines@)));
    }
    r
}

/// Reads the text of a caption file into segments.
///
/// Every text line that stands under a readable timing line gives one
/// segment, in file order, with the time range of the nearest timing line
/// before it. A text line with no timing line before it, or with one that
/// cannot be read, is left out; no input makes the reading fail. Each
/// segment carries up to five timed text lines before it, nearest first, and
/// up to five after it, each with its own time range.
pub fn parse_captions(file: &str, content: &str) -> (r: Vec<MatchResult>)
    ensures
        match_views(r@) == captions(file@, lines(content@)),
{
    let chars = chars_of(content);
    let text_lines = split_lines(&chars);
    read_captions(file, &text_lines)
}

} // verus!
