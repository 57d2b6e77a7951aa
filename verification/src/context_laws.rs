//! What holds of every flattened list: which lines it is made of, that no
//! context line repeats a match, and that a greater depth only adds lines.

use vstd::prelude::*;
use vstd::seq_lib::lemma_multiset_commutative;
use crate::context::{
    block, block_of, context_line, context_lines, down_marker, flattened, gap,
    match_line, nearest, not_shown, same_segment, shown_as_match, up_marker, TOLERANCE_MS,
};
use crate::model::{ContextEntryView, DisplayLineView, MatchResultView};

verus! {

/// `line` is the line of one of the matches.
pub open spec fn is_match_line_of(line: DisplayLineView, matches: Seq<MatchResultView>) -> bool {
    exists|j: int| 0 <= j < matches.len() && line == match_line(#[trigger] matches[j])
}

/// `line` is a context line, before or after, of an entry that is not among
/// the matches.
pub open spec fn is_context_line_of(line: DisplayLineView, matches: Seq<MatchResultView>) -> bool {
    exists|marker: Seq<char>, file: Seq<char>, e: ContextEntryView|
        {
            &&& marker == up_marker() || marker == down_marker()
            &&& !shown_as_match(matches, e)
            &&& line == #[trigger] context_line(marker, file, e)
        }
}

/// A context line repeats a shown line when its text is the text of that
/// line behind a marker, and its start and its end are each less than ten
/// milliseconds from those of that line.
pub open spec fn repeats(context: DisplayLineView, shown: DisplayLineView) -> bool {
    &&& context.text == up_marker() + shown.text || context.text == down_marker() + shown.text
    &&& gap(context.start, shown.start) < TOLERANCE_MS
    &&& gap(context.end, shown.end) < TOLERANCE_MS
}

/// The test for the lines that are matches.
pub open spec fn is_match() -> spec_fn(DisplayLineView) -> bool {
    |l: DisplayLineView| l.is_match
}

/// The making of a match line, as a function of the match.
pub open spec fn as_match() -> spec_fn(MatchResultView) -> DisplayLineView {
    |m: MatchResultView| match_line(m)
}

/// Every context line made for a list of entries is a context line of an
/// entry that is not among the matches.
proof fn lemma_context_lines_members(
    entries: Seq<ContextEntryView>,
    marker: Seq<char>,
    file: Seq<char>,
    matches: Seq<MatchResultView>,
    i: int,
)
    requires
        marker == up_marker() || marker == down_marker(),
        0 <= i < context_lines(entries, marker, file, matches).len(),
    ensures
        is_context_line_of(context_lines(entries, marker, file, matches)[i], matches),
        !context_lines(entries, marker, file, matches)[i].is_match,
{
    let kept = entries.filter(not_shown(matches));
    entries.lemma_filter_pred(not_shown(matches), i);
    assert(context_lines(entries, marker, file, matches)[i] == context_line(
        marker,
        file,
        kept[i],
    ));
}

/// Every line that a match contributes is its own line or a context line.
proof fn lemma_block_members(m: MatchResultView, matches: Seq<MatchResultView>, k: nat, i: int)
    requires
        0 <= i < block(m, matches, k).len(),
    ensures
        ({
            let line = block(m, matches, k)[i];
            if line.is_match {
                line == match_line(m)
            } else {
                is_context_line_of(line, matches)
            }
        }),
{
    let before = context_lines(
        nearest(m.context_before, k).reverse(),
        up_marker(),
        m.segment.file,
        matches,
    );
    let after = context_lines(
        nearest(m.context_after, k),
        down_marker(),
        m.segment.file,
        matches,
    );
    if i < before.len() {
        lemma_context_lines_members(
            nearest(m.context_before, k).reverse(),
            up_marker(),
            m.segment.file,
            matches,
            i,
        );
    } else if i == before.len() {
    } else {
        lemma_context_lines_members(
            nearest(m.context_after, k),
            down_marker(),
            m.segment.file,
            matches,
            i - before.len() - 1,
        );
    }
}

/// What `lemma_flattened_members` says, of the first `n` matches.
proof fn lemma_flat_members(matches: Seq<MatchResultView>, n: int, k: nat, i: int)
    requires
        0 <= n <= matches.len(),
        0 <= i < matches.take(n).flat_map(block_of(matches, k)).len(),
    ensures
        ({
            let line = matches.take(n).flat_map(block_of(matches, k))[i];
            if line.is_match {
                is_match_line_of(line, matches)
            } else {
                is_context_line_of(line, matches)
            }
        }),
    decreases n,
{
    let f = block_of(matches, k);
    if n == 0 {
        assert(matches.take(0).map_values(f) =~= Seq::<Seq<DisplayLineView>>::empty());
    } else {
        let head = matches.take(n - 1);
        let last = matches[n - 1];
        assert(matches.take(n) =~= head.push(last));
        head.lemma_flat_map_push(f, last);
        if i < head.flat_map(f).len() {
            lemma_flat_members(matches, n - 1, k, i);
        } else {
            lemma_block_members(last, matches, k, i - head.flat_map(f).len());
        }
    }
}

/// Every line of a flattened list is the line of one of the matches, or a
/// context line of an entry that is not among the matches.
pub proof fn lemma_flattened_members(matches: Seq<MatchResultView>, k: nat, i: int)
    requires
        0 <= i < flattened(matches, k).len(),
    ensures
        ({
            let line = flattened(matches, k)[i];
            if line.is_match {
                is_match_line_of(line, matches)
            } else {
                is_context_line_of(line, matches)
            }
        }),
{
    assert(matches.take(matches.len() as int) =~= matches);
    lemma_flat_members(matches, matches.len() as int, k, i);
}

/// No context line of a flattened list repeats a match of that list: where
/// a line that is no match has the text of a match behind a marker, its
/// start or its end is ten milliseconds or more from that of the match.
pub proof fn lemma_no_context_line_repeats_a_match(matches: Seq<MatchResultView>, k: nat)
    ensures
        forall|i: int, j: int|
            #![trigger flattened(matches, k)[i], flattened(matches, k)[j]]
            0 <= i < flattened(matches, k).len() && 0 <= j < flattened(matches, k).len()
                && !flattened(matches, k)[i].is_match && flattened(matches, k)[j].is_match
                ==> !repeats(flattened(matches, k)[i], flattened(matches, k)[j]),
{
    let flat = flattened(matches, k);
    assert forall|i: int, j: int|
        #![trigger flat[i], flat[j]]
        0 <= i < flat.len() && 0 <= j < flat.len() && !flat[i].is_match
            && flat[j].is_match implies !repeats(flat[i], flat[j]) by {
        lemma_flattened_members(matches, k, i);
        lemma_flattened_members(matches, k, j);
        let jj = choose|jj: int| 0 <= jj < matches.len() && flat[j] == match_line(#[trigger] matches[jj]);
        let (marker, file, e) = choose|marker: Seq<char>, file: Seq<char>, e: ContextEntryView|
            {
                &&& marker == up_marker() || marker == down_marker()
                &&& !shown_as_match(matches, e)
                &&& flat[i] == #[trigger] context_line(marker, file, e)
            };
        let shown = matches[jj].segment.entry();
        if repeats(flat[i], flat[j]) {
            let other = if flat[i].text == up_marker() + shown.text {
                up_marker()
            } else {
                down_marker()
            };
            assert(marker + e.text == other + shown.text);
            assert((marker + e.text)[0] == marker[0]);
            assert((other + shown.text)[0] == other[0]);
            assert(marker == other);
            assert((marker + e.text).skip(2) =~= e.text);
            assert((other + shown.text).skip(2) =~= shown.text);
            assert(same_segment(shown, e));
            assert(false);
        }
    }
}

/// The context lines of two lists of entries, one after the other, are those
/// of the joined list.
proof fn lemma_context_lines_add(
    a: Seq<ContextEntryView>,
    b: Seq<ContextEntryView>,
    marker: Seq<char>,
    file: Seq<char>,
    matches: Seq<MatchResultView>,
)
    ensures
        context_lines(a + b, marker, file, matches) == context_lines(a, marker, file, matches)
            + context_lines(b, marker, file, matches),
{
    Seq::filter_distributes_over_add(a, b, not_shown(matches));
    assert(context_lines(a + b, marker, file, matches) =~= context_lines(
        a,
        marker,
        file,
        matches,
    ) + context_lines(b, marker, file, matches));
}

/// What depth `k + 1` adds to the `k` nearest of `entries`.
spec fn next_entry(entries: Seq<ContextEntryView>, k: nat) -> Seq<ContextEntryView> {
    if k < entries.len() {
        seq![entries[k as int]]
    } else {
        Seq::empty()
    }
}

/// What a match contributes at depth `k`, it contributes at depth `k + 1`.
proof fn lemma_block_grows(m: MatchResultView, matches: Seq<MatchResultView>, k: nat)
    ensures
        block(m, matches, k).to_multiset().subset_of(block(m, matches, k + 1).to_multiset()),
{
    let file = m.segment.file;
    let before = nearest(m.context_before, k);
    let after = nearest(m.context_after, k);
    let more_before = next_entry(m.context_before, k);
    let more_after = next_entry(m.context_after, k);
    assert(nearest(m.context_before, k + 1).reverse() =~= more_before + before.reverse());
    assert(nearest(m.context_after, k + 1) =~= after + more_after);
    lemma_context_lines_add(more_before, before.reverse(), up_marker(), file, matches);
    lemma_context_lines_add(after, more_after, down_marker(), file, matches);
    let x = context_lines(more_before, up_marker(), file, matches);
    let y = context_lines(more_after, down_marker(), file, matches);
    let small = block(m, matches, k);
    let large = block(m, matches, k + 1);
    assert(large =~= x + small + y);
    lemma_multiset_commutative(x + small, y);
    lemma_multiset_commutative(x, small);
}

/// What `lemma_deeper_context_keeps_lines` says, of the first `n` matches.
proof fn lemma_flat_grows(matches: Seq<MatchResultView>, n: int, k: nat)
    requires
        0 <= n <= matches.len(),
    ensures
        matches.take(n).flat_map(block_of(matches, k)).to_multiset().subset_of(
            matches.take(n).flat_map(block_of(matches, k + 1)).to_multiset(),
        ),
    decreases n,
{
    let f = block_of(matches, k);
    let g = block_of(matches, k + 1);
    if n == 0 {
        assert(matches.take(0).map_values(f) =~= Seq::<Seq<DisplayLineView>>::empty());
        assert(matches.take(0).map_values(g) =~= Seq::<Seq<DisplayLineView>>::empty());
        assert(matches.take(0).flat_map(f) =~= matches.take(0).flat_map(g));
    } else {
        let head = matches.take(n - 1);
        let last = matches[n - 1];
        assert(matches.take(n) =~= head.push(last));
        head.lemma_flat_map_push(f, last);
        head.lemma_flat_map_push(g, last);
        lemma_flat_grows(matches, n - 1, k);
        lemma_block_grows(last, matches, k);
        lemma_multiset_commutative(head.flat_map(f), f(last));
        lemma_multiset_commutative(head.flat_map(g), g(last));
    }
}

/// For the same matches, the flattened list at depth `k + 1` holds every
/// line of the list at depth `k`, as often as that list holds it.
pub proof fn lemma_deeper_context_keeps_lines(matches: Seq<MatchResultView>, k: nat)
    ensures
        flattened(matches, k).to_multiset().subset_of(flattened(matches, k + 1).to_multiset()),
{
    assert(matches.take(matches.len() as int) =~= matches);
    lemma_flat_grows(matches, matches.len() as int, k);
}

/// No context line is a match.
proof fn lemma_context_lines_hold_no_match(
    entries: Seq<ContextEntryView>,
    marker: Seq<char>,
    file: Seq<char>,
    matches: Seq<MatchResultView>,
)
    ensures
        context_lines(entries, marker, file, matches).filter(is_match()) == Seq::<
            DisplayLineView,
        >::empty(),
{
    let lines = context_lines(entries, marker, file, matches);
    assert(lines.all(|l: DisplayLineView| !is_match()(l)));
    lines.lemma_all_neg_filter_empty(is_match());
    assert(lines.filter(is_match()) =~= Seq::<DisplayLineView>::empty());
}

/// The only match among the lines that a match contributes is its own
/// line.
proof fn lemma_block_match(m: MatchResultView, matches: Seq<MatchResultView>, k: nat)
    ensures
        block(m, matches, k).filter(is_match()) == seq![match_line(m)],
{
    let before = context_lines(
        nearest(m.context_before, k).reverse(),
        up_marker(),
        m.segment.file,
        matches,
    );
    let after = context_lines(
        nearest(m.context_after, k),
        down_marker(),
        m.segment.file,
        matches,
    );
    let middle = seq![match_line(m)];
    lemma_context_lines_hold_no_match(
        nearest(m.context_before, k).reverse(),
        up_marker(),
        m.segment.file,
        matches,
    );
    lemma_context_lines_hold_no_match(
        nearest(m.context_after, k),
        down_marker(),
        m.segment.file,
        matches,
    );
    Seq::filter_distributes_over_add(before + middle, after, is_match());
    Seq::filter_distributes_over_add(before, middle, is_match());
    assert(middle.filter(is_match()) =~= middle) by {
        reveal(Seq::filter);
        assert(middle.drop_last() =~= Seq::<DisplayLineView>::empty());
    }
    assert(block(m, matches, k).filter(is_match()) =~= middle);
}

/// What `lemma_matches_stay` says, of the first `n` matches.
proof fn lemma_flat_matches(matches: Seq<MatchResultView>, n: int, k: nat)
    requires
        0 <= n <= matches.len(),
    ensures
        matches.take(n).flat_map(block_of(matches, k)).filter(is_match()) == matches.take(
            n,
        ).map_values(as_match()),
    decreases n,
{
    let f = block_of(matches, k);
    if n == 0 {
        assert(matches.take(0).map_values(f) =~= Seq::<Seq<DisplayLineView>>::empty());
        assert(matches.take(0).flat_map(f) =~= Seq::<DisplayLineView>::empty());
        assert(matches.take(0).flat_map(f).filter(is_match()) =~= matches.take(0).map_values(
            as_match(),
        )) by {
            reveal(Seq::filter);
        }
    } else {
        let head = matches.take(n - 1);
        let last = matches[n - 1];
        assert(matches.take(n) =~= head.push(last));
        head.lemma_flat_map_push(f, last);
        lemma_flat_matches(matches, n - 1, k);
        lemma_block_match(last, matches, k);
        Seq::filter_distributes_over_add(head.flat_map(f), f(last), is_match());
        assert(matches.take(n).map_values(as_match()) =~= head.map_values(as_match()).push(
            match_line(last),
        ));
        assert(matches.take(n).flat_map(f).filter(is_match()) =~= matches.take(n).map_values(
            as_match(),
        ));
    }
}

/// At every depth, the matches of a flattened list are the lines of the
/// matches it was made from, each once, in their order: a change of depth
/// neither removes nor reorders them.
pub proof fn lemma_matches_stay(matches: Seq<MatchResultView>, k: nat)
    ensures
        flattened(matches, k).filter(is_match()) == matches.map_values(as_match()),
{
    assert(matches.take(matches.len() as int) =~= matches);
    lemma_flat_matches(matches, matches.len() as int, k);
}

} // verus!
