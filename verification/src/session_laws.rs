//! What holds of every state that a session can reach.

use vstd::prelude::*;
use crate::caption::MAX_CONTEXT;
use crate::context::{block_of, flattened};
use crate::context_laws::{as_match, is_match, lemma_matches_stay};
use crate::editor_laws::{is_pristine, lemma_flattened_is_pristine, same_but_times};
use crate::model::{DisplayLineView, MatchResultView};
use crate::query::filtered;
use crate::session::{refiltered, reflattened, started, step, AppView, Command};

verus! {

/// The states that a session can be in: the depth is within its range; the
/// matches are those of the query; the list is the flattened list of the
/// matches at the depth, but for edited starts and ends; and a line is
/// selected exactly when the list has lines.
pub open spec fn well_formed(s: AppView) -> bool {
    let fresh = flattened(s.filtered, s.context_lines);
    &&& s.context_lines <= MAX_CONTEXT
    &&& s.filtered == filtered(s.all, s.query)
    &&& s.flat.len() == fresh.len()
    &&& forall|i: int| 0 <= i < fresh.len() ==> same_but_times(#[trigger] s.flat[i], fresh[i])
    &&& s.selected is None <==> s.flat.len() == 0
}

/// A flattened list has at least one line for each match, and none where
/// there is no match.
pub proof fn lemma_flattened_len(matches: Seq<MatchResultView>, k: nat)
    ensures
        matches.len() <= flattened(matches, k).len(),
        matches.len() == 0 ==> flattened(matches, k).len() == 0,
{
    lemma_matches_stay(matches, k);
    flattened(matches, k).lemma_filter_len(is_match());
    assert(matches.map_values(as_match()).len() == matches.len());
    if matches.len() == 0 {
        assert(matches.map_values(block_of(matches, k)) =~= Seq::<Seq<DisplayLineView>>::empty());
    }
}

/// Applying the query a second time changes nothing: the matches, the list
/// and the selection come out the same, in the same order.
pub proof fn lemma_refilter_twice(s: AppView)
    ensures
        refiltered(refiltered(s)) == refiltered(s),
{
}

/// Building the list a second time changes nothing.
pub proof fn lemma_reflatten_twice(s: AppView)
    ensures
        reflattened(reflattened(s)) == reflattened(s),
{
}

/// A new session is well formed.
pub proof fn lemma_started_is_well_formed(all: Seq<MatchResultView>)
    ensures
        well_formed(started(all)),
{
}

/// Every command takes a well-formed state to a well-formed state.
pub proof fn lemma_step_keeps_well_formed(s: AppView, command: Command)
    requires
        well_formed(s),
    ensures
        well_formed(step(s, command).0),
{
    let next = step(s, command).0;
    match command {
        Command::MoreContext => {
            lemma_flattened_len(s.filtered, s.context_lines);
            lemma_flattened_len(s.filtered, s.context_lines + 1);
        },
        Command::LessContext => {
            lemma_flattened_len(s.filtered, s.context_lines);
            if s.context_lines > 0 {
                lemma_flattened_len(s.filtered, (s.context_lines - 1) as nat);
            }
        },
        _ => {},
    }
}

/// In a well-formed state, the original times of every line are the times
/// that flattening gave it.
pub proof fn lemma_original_times_are_fresh(s: AppView, i: int)
    requires
        well_formed(s),
        0 <= i < s.flat.len(),
    ensures
        s.flat[i].original_start == flattened(s.filtered, s.context_lines)[i].start,
        s.flat[i].original_end == flattened(s.filtered, s.context_lines)[i].end,
{
    lemma_flattened_is_pristine(s.filtered, s.context_lines);
    let fresh = flattened(s.filtered, s.context_lines);
    assert(same_but_times(s.flat[i], fresh[i]));
    assert(is_pristine(fresh[i]));
}

} // verus!
