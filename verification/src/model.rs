//! The data of a transcript search: segments, matches with their context,
//! and the lines of the flattened list.
//!
//! Texts are strings, times are whole milliseconds. Each type has a view
//! that holds its texts as sequences of characters and its times as natural
//! numbers; the contracts of the library speak of these views.

use vstd::prelude::*;

verus! {

/// A neighbouring line of a segment: its text and its own time range.
#[derive(Debug, PartialEq, Eq)]
pub struct ContextEntry {
    pub text: String,
    pub start: u64,
    pub end: u64,
}

/// What a `ContextEntry` stands for.
pub struct ContextEntryView {
    pub text: Seq<char>,
    pub start: nat,
    pub end: nat,
}

impl View for ContextEntry {
    type V = ContextEntryView;

    open spec fn view(&self) -> ContextEntryView {
        ContextEntryView { text: self.text@, start: self.start as nat, end: self.end as nat }
    }
}

impl Clone for ContextEntry {
    fn clone(&self) -> (r: Self)
        ensures
            r@ == self@,
    {
        ContextEntry { text: self.text.clone(), start: self.start, end: self.end }
    }
}

/// One time-stamped line of transcript text, with the file it came from.
/// The end is not held to come after the start.
#[derive(Debug, PartialEq, Eq)]
pub struct Segment {
    pub file: String,
    pub text: String,
    pub start: u64,
    pub end: u64,
}

/// What a `Segment` stands for.
pub struct SegmentView {
    pub file: Seq<char>,
    pub text: Seq<char>,
    pub start: nat,
    pub end: nat,
}

impl SegmentView {
    /// The text and times of the segment, without its file.
    pub open spec fn entry(self) -> ContextEntryView {
        ContextEntryView { text: self.text, start: self.start, end: self.end }
    }
}

impl View for Segment {
    type V = SegmentView;

    open spec fn view(&self) -> SegmentView {
        SegmentView {
            file: self.file@,
            text: self.text@,
            start: self.start as nat,
            end: self.end as nat,
        }
    }
}

impl Clone for Segment {
    fn clone(&self) -> (r: Self)
        ensures
            r@ == self@,
    {
        Segment {
            file: self.file.clone(),
            text: self.text.clone(),
            start: self.start,
            end: self.end,
        }
    }
}

/// The views of a list of context entries.
pub open spec fn entry_views(s: Seq<ContextEntry>) -> Seq<ContextEntryView> {
    s.map_values(|e: ContextEntry| e@)
}

/// A copy of a list of context entries.
pub fn clone_entries(v: &Vec<ContextEntry>) -> (r: Vec<ContextEntry>)
    ensures
        entry_views(r@) == entry_views(v@),
{
    let mut r: Vec<ContextEntry> = Vec::new();
    let mut i: usize = 0;
    while i < v.len()
        invariant
            i <= v.len(),
            r.len() == i,
            forall|j: int| 0 <= j < i ==> r[j]@ == v[j]@,
        decreases v.len() - i,
    {
        r.push(v[i].clone());
        i += 1;
    }
    proof {
        assert(entry_views(r@) =~= entry_views(v@));
    }
    r
}

/// A segment together with the context that was captured around it when its
/// file was read: the lines before it, nearest first, and the lines after
/// it, in file order.
#[derive(Debug, PartialEq, Eq)]
pub struct MatchResult {
    pub segment: Segment,
    pub context_before: Vec<ContextEntry>,
    pub context_after: Vec<ContextEntry>,
}

/// What a `MatchResult` stands for.
pub struct MatchResultView {
    pub segment: SegmentView,
    pub context_before: Seq<ContextEntryView>,
    pub context_after: Seq<ContextEntryView>,
}

impl View for MatchResult {
    type V = MatchResultView;

    open spec fn view(&self) -> MatchResultView {
        MatchResultView {
            segment: self.segment@,
            context_before: entry_views(self.context_before@),
            context_after: entry_views(self.context_after@),
        }
    }
}

impl Clone for MatchResult {
    fn clone(&self) -> (r: Self)
        ensures
            r@ == self@,
    {
        MatchResult {
            segment: self.segment.clone(),
            context_before: clone_entries(&self.context_before),
            context_after: clone_entries(&self.context_after),
        }
    }
}

/// The views of a list of matches.
pub open spec fn match_views(s: Seq<MatchResult>) -> Seq<MatchResultView> {
    s.map_values(|m: MatchResult| m@)
}

/// A copy of a list of matches.
pub fn clone_matches(v: &Vec<MatchResult>) -> (r: Vec<MatchResult>)
    ensures
        match_views(r@) == match_views(v@),
{
    let mut r: Vec<MatchResult> = Vec::new();
    let mut i: usize = 0;
    while i < v.len()
        invariant
            i <= v.len(),
            r.len() == i,
            forall|j: int| 0 <= j < i ==> r[j]@ == v[j]@,
        decreases v.len() - i,
    {
        r.push(v[i].clone());
        i += 1;
    }
    proof {
        assert(match_views(r@) =~= match_views(v@));
    }
    r
}

/// A line of the flattened list: a match, or a context line of a match.
/// `start` and `end` can be edited; `original_start` and `original_end` keep
/// the times the line was made with.
#[derive(Debug, PartialEq, Eq)]
pub struct DisplayLine {
    pub text: String,
    pub file: String,
    pub start: u64,
    pub end: u64,
    pub is_match: bool,
    pub original_start: u64,
    pub original_end: u64,
}

/// What a `DisplayLine` stands for.
pub struct DisplayLineView {
    pub text: Seq<char>,
    pub file: Seq<char>,
    pub start: nat,
    pub end: nat,
    pub is_match: bool,
    pub original_start: nat,
    pub original_end: nat,
}

impl View for DisplayLine {
    type V = DisplayLineView;

    open spec fn view(&self) -> DisplayLineView {
        DisplayLineView {
            text: self.text@,
            file: self.file@,
            start: self.start as nat,
            end: self.end as nat,
            is_match: self.is_match,
            original_start: self.original_start as nat,
            original_end: self.original_end as nat,
        }
    }
}

impl Clone for DisplayLine {
    fn clone(&self) -> (r: Self)
        ensures
            r@ == self@,
    {
        DisplayLine {
            text: self.text.clone(),
            file: self.file.clone(),
            start: self.start,
            end: self.end,
            is_match: self.is_match,
            original_start: self.original_start,
            original_end: self.original_end,
        }
    }
}

/// The views of a list of display lines.
pub open spec fn line_views(s: Seq<DisplayLine>) -> Seq<DisplayLineView> {
    s.map_values(|l: DisplayLine| l@)
}

} // verus!
