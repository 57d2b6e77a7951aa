//! What holds of every reading of a caption file: which lines give the
//! segments, in which order, and which lines are passed over.

use vstd::prelude::*;
use crate::caption::{captions, entries, entry_at, is_text_line, time_before, MAX_CONTEXT};
use crate::text::{
    contains, find_from, lemma_find_from, lemma_skip_spaces, lemma_skip_spaces_back, occurs_at,
    skip_spaces, skip_spaces_back, split, split_from, trim,
};
use crate::timestamp::{arrow, colon, dot, time_range, timestamp};

verus! {

/// The positions, among the first `n` lines, of the lines that give a
/// segment, in rising order.
pub open spec fn positions(lines: Seq<Seq<char>>, n: int) -> Seq<int>
    decreases n,
{
    if n <= 0 {
        Seq::empty()
    } else if entry_at(lines, n - 1) is Some {
        positions(lines, n - 1).push(n - 1)
    } else {
        positions(lines, n - 1)
    }
}

/// The number of text lines among the first `n` lines.
pub open spec fn text_line_count(lines: Seq<Seq<char>>, n: int) -> nat
    decreases n,
{
    if n <= 0 {
        0
    } else if n <= lines.len() && is_text_line(lines[n - 1]) {
        text_line_count(lines, n - 1) + 1
    } else {
        text_line_count(lines, n - 1)
    }
}

/// The entries among the first `n` lines are those of the lines at
/// `positions`, one for one; the positions rise, lie below `n`, and are all
/// the lines that give an entry.
pub proof fn lemma_entries_follow_positions(lines: Seq<Seq<char>>, n: int)
    requires
        0 <= n <= lines.len(),
    ensures
        entries(lines, n).len() == positions(lines, n).len(),
        forall|k: int|
            0 <= k < positions(lines, n).len() ==> {
                let p = #[trigger] positions(lines, n)[k];
                &&& 0 <= p < n
                &&& entry_at(lines, p) == Some(entries(lines, n)[k])
            },
        forall|j: int, k: int|
            0 <= j < k < positions(lines, n).len() ==> positions(lines, n)[j] < positions(
                lines,
                n,
            )[k],
        forall|p: int|
            0 <= p < n && entry_at(lines, p) is Some ==> positions(lines, n).contains(p),
    decreases n,
{
    if n > 0 {
        lemma_entries_follow_positions(lines, n - 1);
        let head = positions(lines, n - 1);
        let all = positions(lines, n);
        assert forall|p: int| 0 <= p < n && entry_at(lines, p) is Some implies all.contains(
            p,
        ) by {
            if p < n - 1 {
                assert(head.contains(p));
                let k = choose|k: int| 0 <= k < head.len() && head[k] == p;
                assert(all[k] == p);
            } else {
                assert(all[all.len() - 1] == p);
            }
        }
    }
}

/// The segments of a file are one for each line that gives an
/// entry, in the order of those lines in the file: segment `k` has the
/// trimmed text of the `k`-th such line and the time range that holds
/// there.
pub proof fn lemma_segments_in_file_order(file: Seq<char>, lines: Seq<Seq<char>>)
    ensures
        captions(file, lines).len() == positions(lines, lines.len() as int).len(),
        forall|k: int|
            0 <= k < captions(file, lines).len() ==> {
                let p = positions(lines, lines.len() as int)[k];
                let segment = (#[trigger] captions(file, lines)[k]).segment;
                &&& 0 <= p < lines.len()
                &&& is_text_line(lines[p])
                &&& segment.file == file
                &&& segment.text == trim(lines[p])
                &&& time_before(lines, p) == Some((segment.start as u64, segment.end as u64))
            },
        forall|j: int, k: int|
            0 <= j < k < captions(file, lines).len() ==> positions(lines, lines.len() as int)[j]
                < positions(lines, lines.len() as int)[k],
{
    let n = lines.len() as int;
    lemma_entries_follow_positions(lines, n);
    assert forall|k: int| 0 <= k < captions(file, lines).len() implies {
        let p = positions(lines, n)[k];
        let segment = (#[trigger] captions(file, lines)[k]).segment;
        &&& 0 <= p < lines.len()
        &&& is_text_line(lines[p])
        &&& segment.file == file
        &&& segment.text == trim(lines[p])
        &&& time_before(lines, p) == Some((segment.start as u64, segment.end as u64))
    } by {
        let p = positions(lines, n)[k];
        assert(entry_at(lines, p) == Some(entries(lines, n)[k]));
    }
}

/// Where every text line is timed, the entries among the first `n` lines
/// are as many as the text lines among them.
proof fn lemma_count_when_all_timed(lines: Seq<Seq<char>>, n: int)
    requires
        0 <= n <= lines.len(),
        forall|i: int|
            0 <= i < lines.len() && is_text_line(#[trigger] lines[i]) ==> time_before(lines, i)
                is Some,
    ensures
        entries(lines, n).len() == text_line_count(lines, n),
    decreases n,
{
    if n > 0 {
        lemma_count_when_all_timed(lines, n - 1);
        if is_text_line(lines[n - 1]) {
            assert(time_before(lines, n - 1) is Some);
        }
    }
}

/// Where every text line of a file stands under a timing line that can be
/// read, the file gives exactly as many segments as it has text lines.
pub proof fn lemma_every_timed_line_counts(file: Seq<char>, lines: Seq<Seq<char>>)
    requires
        forall|i: int|
            0 <= i < lines.len() && is_text_line(#[trigger] lines[i]) ==> time_before(lines, i)
                is Some,
    ensures
        captions(file, lines).len() == text_line_count(lines, lines.len() as int),
{
    lemma_count_when_all_timed(lines, lines.len() as int);
}

/// No segment carries more than five context entries on either side.
pub proof fn lemma_context_is_bounded(file: Seq<char>, lines: Seq<Seq<char>>)
    ensures
        forall|k: int|
            0 <= k < captions(file, lines).len() ==> {
                let found = #[trigger] captions(file, lines)[k];
                &&& found.context_before.len() <= MAX_CONTEXT
                &&& found.context_before.len() <= k
                &&& found.context_after.len() <= MAX_CONTEXT
                &&& found.context_after.len() <= captions(file, lines).len() - 1 - k
            },
{
}

/// A line where no time range holds gives no segment, whatever it is; the
/// lines before and after it give theirs all the same.
pub proof fn lemma_untimed_line_is_skipped(file: Seq<char>, lines: Seq<Seq<char>>, i: int)
    requires
        0 <= i < lines.len(),
        time_before(lines, i) is None,
    ensures
        entry_at(lines, i) is None,
        !positions(lines, lines.len() as int).contains(i),
        forall|p: int|
            0 <= p < lines.len() && entry_at(lines, p) is Some ==> positions(
                lines,
                lines.len() as int,
            ).contains(p),
{
    lemma_entries_follow_positions(lines, lines.len() as int);
}

/// A part of a text holds nothing that the text does not hold.
pub proof fn lemma_part_lacks(s: Seq<char>, a: int, b: int, needle: Seq<char>)
    requires
        0 <= a <= b <= s.len(),
        !contains(s, needle),
    ensures
        !contains(s.subrange(a, b), needle),
{
    let part = s.subrange(a, b);
    if contains(part, needle) {
        let i = choose|i: int| occurs_at(part, needle, i);
        assert(s.subrange(a + i, a + i + needle.len()) =~= part.subrange(i, i + needle.len()));
        assert(occurs_at(s, needle, a + i));
    }
}

/// A trimmed text holds nothing that the text does not hold.
pub proof fn lemma_trim_lacks(s: Seq<char>, needle: Seq<char>)
    requires
        !contains(s, needle),
    ensures
        !contains(trim(s), needle),
{
    lemma_skip_spaces(s, 0);
    lemma_skip_spaces_back(s, s.len() as int);
    let a = skip_spaces(s, 0);
    let b = skip_spaces_back(s, s.len() as int);
    if a < b {
        lemma_part_lacks(s, a, b, needle);
    } else {
        lemma_part_lacks(s, 0, 0, needle);
        assert(s.subrange(0, 0) =~= Seq::<char>::empty());
    }
}

/// The pieces of a split text hold nothing that the text does not hold.
pub proof fn lemma_pieces_lack(s: Seq<char>, pat: Seq<char>, from: int, needle: Seq<char>)
    requires
        0 <= from <= s.len(),
        !contains(s, needle),
    ensures
        forall|k: int|
            0 <= k < split_from(s, pat, from).len() ==> !contains(
                #[trigger] split_from(s, pat, from)[k],
                needle,
            ),
    decreases s.len() + 1 - from,
{
    lemma_find_from(s, pat, from);
    match find_from(s, pat, from) {
        Some(i) if pat.len() > 0 => {
            lemma_part_lacks(s, from, i, needle);
            lemma_pieces_lack(s, pat, i + pat.len(), needle);
            let rest = split_from(s, pat, i + pat.len());
            let all = split_from(s, pat, from);
            assert(all == seq![s.subrange(from, i)] + rest);
            assert forall|k: int| 0 <= k < all.len() implies !contains(
                #[trigger] all[k],
                needle,
            ) by {
                if k > 0 {
                    assert(all[k] == rest[k - 1]);
                }
            }
        },
        _ => {
            lemma_part_lacks(s, from, s.len() as int, needle);
            assert(split_from(s, pat, from) == seq![s.subrange(from, s.len() as int)]);
        },
    }
}

/// A text that lacks the separator is a single piece.
pub proof fn lemma_split_without_separator(s: Seq<char>, pat: Seq<char>)
    requires
        !contains(s, pat),
    ensures
        split(s, pat) == seq![s],
{
    lemma_find_from(s, pat, 0);
    assert(s.subrange(0, s.len() as int) =~= s);
}

/// A timestamp without a dot, such as `HH:MM:SS`, writes no time.
pub proof fn lemma_timestamp_needs_millis(ts: Seq<char>)
    requires
        !contains(ts, dot()),
    ensures
        timestamp(ts) is None,
{
    let fields = split(ts, colon());
    if fields.len() == 3 {
        lemma_pieces_lack(ts, colon(), 0, dot());
        lemma_split_without_separator(fields[2], dot());
    }
}

/// A timing line without a dot, such as `HH:MM:SS --> HH:MM:SS`, writes no
/// time range.
pub proof fn lemma_time_range_needs_millis(line: Seq<char>)
    requires
        !contains(line, dot()),
    ensures
        time_range(line) is None,
{
    let sides = split(line, arrow());
    if sides.len() == 2 {
        lemma_pieces_lack(line, arrow(), 0, dot());
        lemma_trim_lacks(sides[0], dot());
        lemma_timestamp_needs_millis(trim(sides[0]));
    }
}

} // verus!
