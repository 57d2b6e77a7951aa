//! Filtering segments by a query: every word of the query must be found in
//! the text of a segment, without regard to case.

use vstd::prelude::*;
use crate::model::{clone_matches, match_views, MatchResult, MatchResultView};
use crate::strings::{chars_of, lowercase, string_of};
use crate::text::{contains, has_substring, rows, split_words, words};

verus! {

/// Every one of `needles` is a contiguous part of `hay`.
pub open spec fn contains_each(hay: Seq<char>, needles: Seq<Seq<char>>) -> bool {
    forall|i: int| 0 <= i < needles.len() ==> contains(hay, #[trigger] needles[i])
}

/// Each text of `s` in lowercase.
pub open spec fn lowercase_each(s: Seq<Seq<char>>) -> Seq<Seq<char>> {
    s.map_values(|w: Seq<char>| lowercase(w))
}

/// The words that a query asks for: its words, each in lowercase.
pub open spec fn query_words(query: Seq<char>) -> Seq<Seq<char>> {
    lowercase_each(words(query))
}

/// Whether a text satisfies a query: each word of the query, in lowercase,
/// is a contiguous part of the text in lowercase. Word boundaries play no
/// part. A query without words, the empty one among them, is satisfied by
/// every text.
pub open spec fn text_matches(text: Seq<char>, query: Seq<char>) -> bool {
    contains_each(lowercase(text), query_words(query))
}

/// The test that a query puts to a segment.
pub open spec fn passing(query: Seq<char>) -> spec_fn(MatchResultView) -> bool {
    |m: MatchResultView| text_matches(m.segment.text, query)
}

/// The segments that satisfy a query, in the order they had.
pub open spec fn filtered(all: Seq<MatchResultView>, query: Seq<char>) -> Seq<MatchResultView> {
    all.filter(passing(query))
}

/// Whether every one of `needles` is a contiguous part of `hay`.
pub fn contains_all(hay: &Vec<char>, needles: &Vec<Vec<char>>) -> (b: bool)
    ensures
        b == contains_each(hay@, rows(needles@)),
{
    let mut i: usize = 0;
    while i < needles.len()
        invariant
            i <= needles.len(),
            forall|j: int| 0 <= j < i ==> contains(hay@, #[trigger] rows(needles@)[j]),
        decreases needles.len() - i,
    {
        proof {
            assert(rows(needles@)[i as int] == needles[i as int]@);
        }
        if !has_substring(hay, &needles[i]) {
            return false;
        }
        i += 1;
    }
    true
}

/// The words that a query asks for.
pub fn lower_words(query: &str) -> (r: Vec<Vec<char>>)
    ensures
        rows(r@) == query_words(query@),
{
    let found = split_words(&chars_of(query));
    let mut r: Vec<Vec<char>> = Vec::new();
    let mut i: usize = 0;
    while i < found.len()
        invariant
            i <= found.len(),
            r.len() == i,
            forall|j: int| 0 <= j < i ==> r[j]@ == lowercase(found[j]@),
        decreases found.len() - i,
    {
        let word = string_of(&found[i]);
        let lowered = word.as_str().to_lowercase();
        r.push(chars_of(lowered.as_str()));
        i += 1;
    }
    proof {
        assert(rows(found@) == words(query@));
        assert(rows(r@) =~= lowercase_each(rows(found@)));
    }
    r
}

/// Whether `text` holds every one of the words `wanted`, which are taken as
/// they are; `text` is put in lowercase first.
pub fn matches_words(text: &str, wanted: &Vec<Vec<char>>) -> (b: bool)
    ensures
        b == contains_each(lowercase(text@), rows(wanted@)),
{
    let lowered = text.to_lowercase();
    contains_all(&chars_of(lowered.as_str()), wanted)
}

/// Whether `text` satisfies `query`.
pub fn matches_query(text: &str, query: &str) -> (b: bool)
    ensures
        b == text_matches(text@, query@),
{
    let wanted = lower_words(query);
    matches_words(text, &wanted)
}

/// A sequence whose members all pass a test is left whole by the filter.
pub proof fn lemma_filter_keeps_all<A>(s: Seq<A>, pred: spec_fn(A) -> bool)
    requires
        forall|i: int| 0 <= i < s.len() ==> pred(#[trigger] s[i]),
    ensures
        s.filter(pred) == s,
    decreases s.len(),
{
    reveal(Seq::filter);
    if s.len() > 0 {
        lemma_filter_keeps_all(s.drop_last(), pred);
        assert(s.drop_last().push(s.last()) =~= s);
    }
}

/// The segments of `all` that satisfy `query`, in the order they have in
/// `all`. The empty query keeps them all.
pub fn filter_results(all: &Vec<MatchResult>, query: &str) -> (r: Vec<MatchResult>)
    ensures
        match_views(r@) == filtered(match_views(all@), query@),
{
    let wanted = lower_words(query);
    if wanted.len() == 0 {
        proof {
            assert(query_words(query@).len() == 0);
            lemma_filter_keeps_all(match_views(all@), passing(query@));
        }
        return clone_matches(all);
    }
    let mut r: Vec<MatchResult> = Vec::new();
    let mut i: usize = 0;
    proof {
        assert(match_views(all@.take(0)) =~= Seq::<MatchResultView>::empty());
        assert(match_views(r@) =~= Seq::<MatchResultView>::empty());
    }
    while i < all.len()
        invariant
            i <= all.len(),
            rows(wanted@) == query_words(query@),
            match_views(r@) == filtered(match_views(all@.take(i as int)), query@),
        decreases all.len() - i,
    {
        let ghost before = match_views(r@);
        let ghost seen = match_views(all@.take(i as int));
        let item = &all[i];
        proof {
            assert(match_views(all@.take(i + 1)) =~= seen.push(item@));
            seen.lemma_filter_push(item@, passing(query@));
        }
        if matches_words(item.segment.text.as_str(), &wanted) {
            r.push(item.clone());
            proof {
                assert(match_views(r@) =~= before.push(item@));
            }
        }
        i += 1;
    }
    proof {
        assert(all@.take(all.len() as int) =~= all@);
    }
    r
}

/// Filtering what a query has kept, by the same query, keeps all of it: the
/// list comes out the same, in the same order.
pub proof fn lemma_filter_twice(all: Seq<MatchResultView>, query: Seq<char>)
    ensures
        filtered(filtered(all, query), query) == filtered(all, query),
{
    let kept = filtered(all, query);
    assert forall|i: int| 0 <= i < kept.len() implies passing(query)(#[trigger] kept[i]) by {
        all.lemma_filter_pred(passing(query), i);
    }
    lemma_filter_keeps_all(kept, passing(query));
}

} // verus!
