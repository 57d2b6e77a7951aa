//! Expanding matches into the flattened list: each match with up to `k`
//! context lines before and after it, without the context lines that are
//! themselves among the matches.

use vstd::prelude::*;
use crate::model::{
    entry_views, line_views, match_views, ContextEntry, ContextEntryView, DisplayLine,
    DisplayLineView, MatchResult, MatchResultView,
};

verus! {

/// Two times closer than this many milliseconds count as the same time.
pub const TOLERANCE_MS: u64 = 10;

/// The distance between two times.
pub open spec fn gap(a: nat, b: nat) -> nat {
    if a > b {
        (a - b) as nat
    } else {
        (b - a) as nat
    }
}

/// Two entries are the same segment when their texts are equal and both
/// their starts and their ends are less than ten milliseconds apart.
pub open spec fn same_segment(a: ContextEntryView, b: ContextEntryView) -> bool {
    &&& a.text == b.text
    &&& gap(a.start, b.start) < TOLERANCE_MS
    &&& gap(a.end, b.end) < TOLERANCE_MS
}

/// Whether an entry is the same segment as one of the matches.
pub open spec fn shown_as_match(matches: Seq<MatchResultView>, e: ContextEntryView) -> bool {
    exists|j: int|
        0 <= j < matches.len() && same_segment((#[trigger] matches[j]).segment.entry(), e)
}

/// The mark in front of a context line that stands before its match.
pub open spec fn up_marker() -> Seq<char> {
    seq!['\u{2191}', ' ']
}

/// The mark in front of a context line that stands after its match.
pub open spec fn down_marker() -> Seq<char> {
    seq!['\u{2193}', ' ']
}

/// The line that shows a context entry of a match from `file`.
pub open spec fn context_line(
    marker: Seq<char>,
    file: Seq<char>,
    e: ContextEntryView,
) -> DisplayLineView {
    DisplayLineView {
        text: marker + e.text,
        file,
        start: e.start,
        end: e.end,
        is_match: false,
        original_start: e.start,
        original_end: e.end,
    }
}

/// The line that shows a match.
pub open spec fn match_line(m: MatchResultView) -> DisplayLineView {
    DisplayLineView {
        text: m.segment.text,
        file: m.segment.file,
        start: m.segment.start,
        end: m.segment.end,
        is_match: true,
        original_start: m.segment.start,
        original_end: m.segment.end,
    }
}

/// The test that keeps the entries that are not among the matches.
pub open spec fn not_shown(matches: Seq<MatchResultView>) -> spec_fn(ContextEntryView) -> bool {
    |e: ContextEntryView| !shown_as_match(matches, e)
}

/// The making of a context line, as a function of the entry.
pub open spec fn as_context(marker: Seq<char>, file: Seq<char>) -> spec_fn(
    ContextEntryView,
) -> DisplayLineView {
    |e: ContextEntryView| context_line(marker, file, e)
}

/// The context lines for `entries`, in their order: one for each entry that
/// is not among the matches.
pub open spec fn context_lines(
    entries: Seq<ContextEntryView>,
    marker: Seq<char>,
    file: Seq<char>,
    matches: Seq<MatchResultView>,
) -> Seq<DisplayLineView> {
    entries.filter(not_shown(matches)).map_values(as_context(marker, file))
}

/// The first `k` of `entries`, or all of them where there are fewer.
pub open spec fn nearest(entries: Seq<ContextEntryView>, k: nat) -> Seq<ContextEntryView> {
    if k < entries.len() {
        entries.take(k as int)
    } else {
        entries
    }
}

/// The lines that one match contributes at depth `k`: its `k` nearest
/// entries before it in file order, the match, its `k` nearest entries after
/// it; context entries that are among the matches are left out.
pub open spec fn block(m: MatchResultView, matches: Seq<MatchResultView>, k: nat) -> Seq<
    DisplayLineView,
> {
    context_lines(nearest(m.context_before, k).reverse(), up_marker(), m.segment.file, matches)
        + seq![match_line(m)] + context_lines(
        nearest(m.context_after, k),
        down_marker(),
        m.segment.file,
        matches,
    )
}

/// The contribution of a match, as a function of the match.
pub open spec fn block_of(matches: Seq<MatchResultView>, k: nat) -> spec_fn(MatchResultView) -> Seq<
    DisplayLineView,
> {
    |m: MatchResultView| block(m, matches, k)
}

/// The flattened list at depth `k`: the contributions of the matches, one
/// after the other in the order of the matches.
pub open spec fn flattened(matches: Seq<MatchResultView>, k: nat) -> Seq<DisplayLineView> {
    matches.flat_map(block_of(matches, k))
}

/// Whether two timed texts are the same segment.
pub fn is_same_segment(
    text1: &String,
    start1: u64,
    end1: u64,
    text2: &String,
    start2: u64,
    end2: u64,
) -> (b: bool)
    ensures
        b == same_segment(
            ContextEntryView { text: text1@, start: start1 as nat, end: end1 as nat },
            ContextEntryView { text: text2@, start: start2 as nat, end: end2 as nat },
        ),
{
    if *text1 != *text2 {
        return false;
    }
    let start_diff: u64 = if start1 > start2 {
        start1 - start2
    } else {
        start2 - start1
    };
    let end_diff: u64 = if end1 > end2 {
        end1 - end2
    } else {
        end2 - end1
    };
    start_diff < TOLERANCE_MS && end_diff < TOLERANCE_MS
}

/// Whether `entry` is the same segment as one of `matches`.
pub fn is_also_match(matches: &Vec<MatchResult>, entry: &ContextEntry) -> (b: bool)
    ensures
        b == shown_as_match(match_views(matches@), entry@),
{
    let mut j: usize = 0;
    while j < matches.len()
        invariant
            j <= matches.len(),
            forall|i: int|
                0 <= i < j ==> !same_segment(
                    (#[trigger] match_views(matches@)[i]).segment.entry(),
                    entry@,
                ),
        decreases matches.len() - j,
    {
        let m = &matches[j];
        proof {
            assert(match_views(matches@)[j as int] == m@);
        }
        if is_same_segment(
            &m.segment.text,
            m.segment.start,
            m.segment.end,
            &entry.text,
            entry.start,
            entry.end,
        ) {
            return true;
        }
        j += 1;
    }
    false
}

/// The mark for context before a match, as a string.
fn up_prefix() -> (s: String)
    ensures
        s@ == up_marker(),
{
    proof {
        reveal_strlit("\u{2191} ");
    }
    let s = String::from_str("\u{2191} ");
    proof {
        assert(s@ =~= up_marker());
    }
    s
}

/// The mark for context after a match, as a string.
fn down_prefix() -> (s: String)
    ensures
        s@ == down_marker(),
{
    proof {
        reveal_strlit("\u{2193} ");
    }
    let s = String::from_str("\u{2193} ");
    proof {
        assert(s@ =~= down_marker());
    }
    s
}

/// The line that shows `entry` as context of a match from `file`.
fn make_context_line(marker: String, file: &String, entry: &ContextEntry) -> (line: DisplayLine)
    ensures
        line@ == context_line(marker@, file@, entry@),
{
    DisplayLine {
        text: marker.concat(entry.text.as_str()),
        file: file.clone(),
        start: entry.start,
        end: entry.end,
        is_match: false,
        original_start: entry.start,
        original_end: entry.end,
    }
}

/// Appends to `out` the context lines before the match `m`.
fn push_context_before(
    out: &mut Vec<DisplayLine>,
    m: &MatchResult,
    k: usize,
    matches: &Vec<MatchResult>,
)
    ensures
        line_views(final(out)@) == line_views(old(out)@) + context_lines(
            nearest(m@.context_before, k as nat).reverse(),
            up_marker(),
            m@.segment.file,
            match_views(matches@),
        ),
{
    let n: usize = if k < m.context_before.len() {
        k
    } else {
        m.context_before.len()
    };
    let ghost base = line_views(out@);
    let ghost near = nearest(m@.context_before, k as nat);
    let ghost wanted = near.reverse();
    let ghost all = match_views(matches@);
    proof {
        assert(near =~= entry_views(m.context_before@).take(n as int));
        assert(wanted.take(0) =~= Seq::<ContextEntryView>::empty());
        assert(line_views(out@) =~= base + context_lines(
            wanted.take(0),
            up_marker(),
            m@.segment.file,
            all,
        ));
    }
    let mut t: usize = 0;
    while t < n
        invariant
            t <= n <= m.context_before.len(),
            all == match_views(matches@),
            wanted.len() == n,
            forall|i: int| 0 <= i < n ==> wanted[i] == m.context_before[n - 1 - i]@,
            line_views(out@) == base + context_lines(
                wanted.take(t as int),
                up_marker(),
                m@.segment.file,
                all,
            ),
        decreases n - t,
    {
        let entry = &m.context_before[n - 1 - t];
        let ghost shown = line_views(out@);
        let ghost seen = wanted.take(t as int);
        proof {
            assert(wanted.take(t + 1) =~= seen.push(entry@));
            seen.lemma_filter_push(entry@, not_shown(all));
        }
        if !is_also_match(matches, entry) {
            let line = make_context_line(up_prefix(), &m.segment.file, entry);
            out.push(line);
            proof {
                assert(line_views(out@) =~= shown.push(line@));
                assert(seen.filter(not_shown(all)).push(entry@).map_values(
                    as_context(up_marker(), m@.segment.file),
                ) =~= seen.filter(not_shown(all)).map_values(
                    as_context(up_marker(), m@.segment.file),
                ).push(line@));
                assert(line_views(out@) =~= base + context_lines(
                    wanted.take(t + 1),
                    up_marker(),
                    m@.segment.file,
                    all,
                ));
            }
        }
        t += 1;
    }
    proof {
        assert(wanted.take(n as int) =~= wanted);
    }
}

/// Appends to `out` the context lines after the match `m`.
fn push_context_after(
    out: &mut Vec<DisplayLine>,
    m: &MatchResult,
    k: usize,
    matches: &Vec<MatchResult>,
)
    ensures
        line_views(final(out)@) == line_views(old(out)@) + context_lines(
            nearest(m@.context_after, k as nat),
            down_marker(),
            m@.segment.file,
            match_views(matches@),
        ),
{
    let n: usize = if k < m.context_after.len() {
        k
    } else {
        m.context_after.len()
    };
    let ghost base = line_views(out@);
    let ghost wanted = nearest(m@.context_after, k as nat);
    let ghost all = match_views(matches@);
    proof {
        assert(wanted =~= entry_views(m.context_after@).take(n as int));
        assert(wanted.take(0) =~= Seq::<ContextEntryView>::empty());
        assert(line_views(out@) =~= base + context_lines(
            wanted.take(0),
            down_marker(),
            m@.segment.file,
            all,
        ));
    }
    let mut t: usize = 0;
    while t < n
        invariant
            t <= n <= m.context_after.len(),
            all == match_views(matches@),
            wanted.len() == n,
            forall|i: int| 0 <= i < n ==> wanted[i] == m.context_after[i]@,
            line_views(out@) == base + context_lines(
                wanted.take(t as int),
                down_marker(),
                m@.segment.file,
                all,
            ),
        decreases n - t,
    {
        let entry = &m.context_after[t];
        let ghost shown = line_views(out@);
        let ghost seen = wanted.take(t as int);
        proof {
            assert(wanted.take(t + 1) =~= seen.push(entry@));
            seen.lemma_filter_push(entry@, not_shown(all));
        }
        if !is_also_match(matches, entry) {
            let line = make_context_line(down_prefix(), &m.segment.file, entry);
            out.push(line);
            proof {
                assert(line_views(out@) =~= shown.push(line@));
                assert(seen.filter(not_shown(all)).push(entry@).map_values(
                    as_context(down_marker(), m@.segment.file),
                ) =~= seen.filter(not_shown(all)).map_values(
                    as_context(down_marker(), m@.segment.file),
                ).push(line@));
                assert(line_views(out@) =~= base + context_lines(
                    wanted.take(t + 1),
                    down_marker(),
                    m@.segment.file,
                    all,
                ));
            }
        }
        t += 1;
    }
    proof {
        assert(wanted.take(n as int) =~= wanted);
    }
}

/// The line that shows the match `m`.
fn make_match_line(m: &MatchResult) -> (line: DisplayLine)
    ensures
        line@ == match_line(m@),
{
    DisplayLine {
        text: m.segment.text.clone(),
        file: m.segment.file.clone(),
        start: m.segment.start,
        end: m.segment.end,
        is_match: true,
        original_start: m.segment.start,
        original_end: m.segment.end,
    }
}

/// Builds the flattened list of `matches` at context depth `context_lines`.
///
/// For each match in turn: its nearest `context_lines` entries before it,
/// in file order and marked as coming before; the match itself; its nearest
/// `context_lines` entries after it, marked as coming after. A context entry
/// that is the same segment as any of `matches` is left out. Context entries
/// are checked against the matches only, so two matches with overlapping
/// context show the shared entry twice.
pub fn flatten_results(matches: &Vec<MatchResult>, context_lines: usize) -> (r: Vec<DisplayLine>)
    ensures
        line_views(r@) == flattened(match_views(matches@), context_lines as nat),
{
    let mut r: Vec<DisplayLine> = Vec::new();
    let ghost all = match_views(matches@);
    let ghost k = context_lines as nat;
    let mut i: usize = 0;
    proof {
        assert(all.take(0) =~= Seq::<MatchResultView>::empty());
        assert(all.take(0).map_values(block_of(all, k)) =~= Seq::<Seq<DisplayLineView>>::empty());
        assert(all.take(0).flat_map(block_of(all, k)) =~= Seq::<DisplayLineView>::empty());
        assert(line_views(r@) =~= Seq::<DisplayLineView>::empty());
    }
    while i < matches.len()
        invariant
            i <= matches.len(),
            all == match_views(matches@),
            k == context_lines as nat,
            line_views(r@) == all.take(i as int).flat_map(block_of(all, k)),
        decreases matches.len() - i,
    {
        let m = &matches[i];
        let ghost start = line_views(r@);
        proof {
            assert(all[i as int] == m@);
            assert(all.take(i + 1) =~= all.take(i as int).push(m@));
            all.take(i as int).lemma_flat_map_push(block_of(all, k), m@);
        }
        push_context_before(&mut r, m, context_lines, matches);
        let ghost middle = line_views(r@);
        let line = make_match_line(m);
        r.push(line);
        proof {
            assert(line_views(r@) =~= middle + seq![line@]);
        }
        push_context_after(&mut r, m, context_lines, matches);
        proof {
            assert(line_views(r@) =~= start + block(m@, all, k));
        }
        i += 1;
    }
    proof {
        assert(all.take(matches.len() as int) =~= all);
    }
    r
}

} // verus!
