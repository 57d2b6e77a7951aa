//! What holds of every sequence of edits of a flattened list.

use vstd::prelude::*;
use crate::context::flattened;
use crate::context_laws::lemma_flattened_members;
use crate::editor::{
    after_adjust_end, after_adjust_start, after_reset, max_end, selects, MIN_GAP_MS,
};
use crate::model::{DisplayLineView, MatchResultView};

verus! {

/// One edit of a list: which position is selected, and what is asked.
pub enum Edit {
    /// Move the start of the selected line by so many milliseconds.
    MoveStart(Option<usize>, int),
    /// Move the end of the selected line by so many milliseconds.
    MoveEnd(Option<usize>, int),
    /// Set the selected line back to its original times.
    Reset(Option<usize>),
}

/// The list after one edit.
pub open spec fn edited(lines: Seq<DisplayLineView>, edit: Edit) -> Seq<DisplayLineView> {
    match edit {
        Edit::MoveStart(selected, delta) => after_adjust_start(lines, selected, delta),
        Edit::MoveEnd(selected, delta) => after_adjust_end(lines, selected, delta),
        Edit::Reset(selected) => after_reset(lines, selected),
    }
}

/// The list after a sequence of edits, made one after the other.
pub open spec fn edited_all(lines: Seq<DisplayLineView>, edits: Seq<Edit>) -> Seq<DisplayLineView>
    decreases edits.len(),
{
    if edits.len() == 0 {
        lines
    } else {
        edited(edited_all(lines, edits.drop_last()), edits.last())
    }
}

/// A line whose times are the times it was made with.
pub open spec fn is_pristine(line: DisplayLineView) -> bool {
    line.start == line.original_start && line.end == line.original_end
}

/// Two lines that differ in their start and end at most.
pub open spec fn same_but_times(a: DisplayLineView, b: DisplayLineView) -> bool {
    &&& a.text == b.text
    &&& a.file == b.file
    &&& a.is_match == b.is_match
    &&& a.original_start == b.original_start
    &&& a.original_end == b.original_end
}

/// No sequence of edits changes the number of lines, nor anything of a line
/// but its start and its end; the original times stay as they were made.
pub proof fn lemma_edits_keep_all_but_times(lines: Seq<DisplayLineView>, edits: Seq<Edit>)
    ensures
        edited_all(lines, edits).len() == lines.len(),
        forall|i: int|
            0 <= i < lines.len() ==> same_but_times(#[trigger] edited_all(lines, edits)[i], lines[i]),
    decreases edits.len(),
{
    if edits.len() > 0 {
        lemma_edits_keep_all_but_times(lines, edits.drop_last());
    }
}

/// After any sequence of moves of the start, no end has
/// changed, and every start is either the one the line began with or more
/// than ten milliseconds before the end. So a line that began with its start
/// ten milliseconds or more before its end keeps it so.
pub proof fn lemma_start_moves_stay_in_bounds(lines: Seq<DisplayLineView>, edits: Seq<Edit>)
    requires
        forall|k: int| 0 <= k < edits.len() ==> #[trigger] edits[k] is MoveStart,
    ensures
        edited_all(lines, edits).len() == lines.len(),
        forall|i: int|
            0 <= i < lines.len() ==> {
                let line = #[trigger] edited_all(lines, edits)[i];
                &&& line.end == lines[i].end
                &&& 0 <= line.start
                &&& line.start == lines[i].start || line.start + MIN_GAP_MS < line.end
                &&& lines[i].start + MIN_GAP_MS <= lines[i].end ==> line.start + MIN_GAP_MS
                    <= line.end
            },
    decreases edits.len(),
{
    if edits.len() > 0 {
        lemma_start_moves_stay_in_bounds(lines, edits.drop_last());
        assert(edits.last() is MoveStart);
    }
}

/// After any sequence of moves of the end, no start has changed,
/// and every end is either the one the line began with or ten milliseconds
/// or more after the start. The last move left every end as it was before
/// that move, or at most at the latest end that held for the line then.
pub proof fn lemma_end_moves_stay_in_bounds(lines: Seq<DisplayLineView>, edits: Seq<Edit>)
    requires
        forall|k: int| 0 <= k < edits.len() ==> #[trigger] edits[k] is MoveEnd,
    ensures
        edited_all(lines, edits).len() == lines.len(),
        forall|i: int|
            0 <= i < lines.len() ==> {
                let line = #[trigger] edited_all(lines, edits)[i];
                &&& line.start == lines[i].start
                &&& line.end == lines[i].end || line.start + MIN_GAP_MS <= line.end
                &&& lines[i].start + MIN_GAP_MS <= lines[i].end ==> line.start + MIN_GAP_MS
                    <= line.end
            },
        edits.len() > 0 ==> forall|i: int|
            0 <= i < lines.len() ==> {
                let before = edited_all(lines, edits.drop_last());
                let line = #[trigger] edited_all(lines, edits)[i];
                line.end == before[i].end || line.end <= max_end(before, i)
            },
    decreases edits.len(),
{
    if edits.len() > 0 {
        lemma_end_moves_stay_in_bounds(lines, edits.drop_last());
        assert(edits.last() is MoveEnd);
    }
}

/// After any sequence of edits, setting a line back gives
/// it the original times it had before the edits. A line that was pristine
/// before the edits is then again what it was.
pub proof fn lemma_reset_restores(
    lines: Seq<DisplayLineView>,
    edits: Seq<Edit>,
    selected: Option<usize>,
)
    requires
        selects(selected, lines.len()),
    ensures
        ({
            let idx = selected->0 as int;
            let line = after_reset(edited_all(lines, edits), selected)[idx];
            &&& line.start == lines[idx].original_start
            &&& line.end == lines[idx].original_end
            &&& is_pristine(lines[idx]) ==> line == lines[idx]
        }),
{
    lemma_edits_keep_all_but_times(lines, edits);
    let idx = selected->0 as int;
    assert(same_but_times(edited_all(lines, edits)[idx], lines[idx]));
}

/// Every line of a freshly flattened list is pristine: its original times
/// are its times.
pub proof fn lemma_flattened_is_pristine(matches: Seq<MatchResultView>, k: nat)
    ensures
        forall|i: int|
            0 <= i < flattened(matches, k).len() ==> is_pristine(#[trigger] flattened(matches, k)[i]),
{
    assert forall|i: int| 0 <= i < flattened(matches, k).len() implies is_pristine(
        #[trigger] flattened(matches, k)[i],
    ) by {
        lemma_flattened_members(matches, k, i);
    }
}

/// After any sequence of edits of a freshly flattened list, setting a line
/// back makes it exactly the line that flattening gave.
pub proof fn lemma_reset_restores_flattened(
    matches: Seq<MatchResultView>,
    k: nat,
    edits: Seq<Edit>,
    selected: Option<usize>,
)
    requires
        selects(selected, flattened(matches, k).len()),
    ensures
        after_reset(edited_all(flattened(matches, k), edits), selected)[selected->0 as int]
            == flattened(matches, k)[selected->0 as int],
{
    lemma_flattened_is_pristine(matches, k);
    lemma_reset_restores(flattened(matches, k), edits, selected);
}

} // verus!
