//! Character-sequence primitives: white space, substring search, splitting,
//! trimming, lines, words and decimal numbers.
//!
//! Every function here works on sequences of Unicode scalar values. The spec
//! functions are the definitions; each executable function is proved to
//! compute the spec function of the same purpose.

use vstd::prelude::*;

verus! {

/// Whether `c` is one of the Unicode `White_Space` code points.
pub open spec fn is_space(c: char) -> bool {
    let n = c as u32;
    ||| 0x09 <= n <= 0x0D
    ||| n == 0x20
    ||| n == 0x85
    ||| n == 0xA0
    ||| n == 0x1680
    ||| 0x2000 <= n <= 0x200A
    ||| n == 0x2028
    ||| n == 0x2029
    ||| n == 0x202F
    ||| n == 0x205F
    ||| n == 0x3000
}

/// Tests a character for the Unicode `White_Space` property.
pub fn is_whitespace(c: char) -> (b: bool)
    ensures
        b == is_space(c),
{
    let n: u32 = c as u32;
    (0x09 <= n && n <= 0x0D) || n == 0x20 || n == 0x85 || n == 0xA0 || n == 0x1680 || (0x2000 <= n
        && n <= 0x200A) || n == 0x2028 || n == 0x2029 || n == 0x202F || n == 0x205F || n == 0x3000
}

/// `needle` stands in `hay` at position `i`.
pub open spec fn occurs_at(hay: Seq<char>, needle: Seq<char>, i: int) -> bool {
    &&& 0 <= i
    &&& i + needle.len() <= hay.len()
    &&& hay.subrange(i, i + needle.len()) == needle
}

/// `needle` is a contiguous part of `hay`.
pub open spec fn contains(hay: Seq<char>, needle: Seq<char>) -> bool {
    exists|i: int| occurs_at(hay, needle, i)
}

/// The first position at or after `from` where `needle` stands in `hay`.
pub open spec fn find_from(hay: Seq<char>, needle: Seq<char>, from: int) -> Option<int>
    decreases hay.len() + 1 - from,
{
    if from < 0 || from + needle.len() > hay.len() {
        None
    } else if occurs_at(hay, needle, from) {
        Some(from)
    } else {
        find_from(hay, needle, from + 1)
    }
}

/// `find_from` returns the least occurrence at or after `from`, and `None`
/// exactly when there is none.
pub proof fn lemma_find_from(hay: Seq<char>, needle: Seq<char>, from: int)
    requires
        0 <= from,
    ensures
        match find_from(hay, needle, from) {
            Some(i) => {
                &&& from <= i
                &&& occurs_at(hay, needle, i)
                &&& forall|j: int| from <= j < i ==> !occurs_at(hay, needle, j)
            },
            None => forall|j: int| from <= j ==> !occurs_at(hay, needle, j),
        },
    decreases hay.len() + 1 - from,
{
    if from + needle.len() > hay.len() {
    } else if occurs_at(hay, needle, from) {
    } else {
        lemma_find_from(hay, needle, from + 1);
    }
}

/// Searching from the start decides containment.
pub proof fn lemma_contains_is_find(hay: Seq<char>, needle: Seq<char>)
    ensures
        contains(hay, needle) <==> find_from(hay, needle, 0) is Some,
{
    lemma_find_from(hay, needle, 0);
}

/// Whether `needle` stands in `hay` at position `i`.
pub fn matches_at(hay: &Vec<char>, needle: &Vec<char>, i: usize) -> (b: bool)
    requires
        i + needle.len() <= hay.len(),
    ensures
        b == occurs_at(hay@, needle@, i as int),
{
    let n: usize = needle.len();
    let mut k: usize = 0;
    while k < n
        invariant
            n == needle.len(),
            k <= n,
            i + n <= hay.len(),
            forall|j: int| 0 <= j < k ==> hay@[i + j] == needle@[j],
        decreases n - k,
    {
        if hay[i + k] != needle[k] {
            proof {
                assert(hay@.subrange(i as int, i + n)[k as int] == hay@[i + k]);
            }
            return false;
        }
        k += 1;
    }
    proof {
        assert(hay@.subrange(i as int, i + n) =~= needle@);
    }
    true
}

/// The first position at or after `from` where `needle` stands in `hay`.
pub fn find(hay: &Vec<char>, needle: &Vec<char>, from: usize) -> (r: Option<usize>)
    ensures
        match r {
            Some(i) => find_from(hay@, needle@, from as int) == Some(i as int),
            None => find_from(hay@, needle@, from as int) is None,
        },
{
    if needle.len() > hay.len() || from > hay.len() - needle.len() {
        return None;
    }
    let last: usize = hay.len() - needle.len();
    let mut i: usize = from;
    loop
        invariant
            from <= i <= last,
            last == hay.len() - needle.len(),
            find_from(hay@, needle@, from as int) == find_from(hay@, needle@, i as int),
        decreases last - i,
    {
        if matches_at(hay, needle, i) {
            return Some(i);
        }
        if i == last {
            assert(find_from(hay@, needle@, i + 1) is None);
            return None;
        }
        i += 1;
    }
}

/// Whether `needle` is a contiguous part of `hay`.
pub fn has_substring(hay: &Vec<char>, needle: &Vec<char>) -> (b: bool)
    ensures
        b == contains(hay@, needle@),
{
    proof {
        lemma_contains_is_find(hay@, needle@);
    }
    find(hay, needle, 0).is_some()
}

/// The characters of `s` from `from` up to, not including, `to`.
pub fn slice(s: &Vec<char>, from: usize, to: usize) -> (r: Vec<char>)
    requires
        from <= to <= s.len(),
    ensures
        r@ == s@.subrange(from as int, to as int),
{
    let mut r: Vec<char> = Vec::new();
    let mut i: usize = from;
    while i < to
        invariant
            from <= i <= to <= s.len(),
            r@ == s@.subrange(from as int, i as int),
        decreases to - i,
    {
        r.push(s[i]);
        proof {
            assert(r@ =~= s@.subrange(from as int, i + 1));
        }
        i += 1;
    }
    r
}

/// The views of the rows of a table of characters.
pub open spec fn rows(v: Seq<Vec<char>>) -> Seq<Seq<char>> {
    v.map_values(|r: Vec<char>| r@)
}

/// The pieces of `s` from position `from` on that lie between successive
/// occurrences of `pat`, searched from the left without overlap.
pub open spec fn split_from(s: Seq<char>, pat: Seq<char>, from: int) -> Seq<Seq<char>>
    decreases s.len() + 1 - from,
{
    match find_from(s, pat, from) {
        Some(i) if pat.len() > 0 => {
            proof {
                if 0 <= from {
                    lemma_find_from(s, pat, from);
                }
            }
            seq![s.subrange(from, i)] + split_from(s, pat, i + pat.len())
        },
        _ => seq![s.subrange(from, s.len() as int)],
    }
}

/// The pieces of `s` between successive occurrences of the separator `pat`.
/// A text without the separator is its own single piece.
pub open spec fn split(s: Seq<char>, pat: Seq<char>) -> Seq<Seq<char>> {
    split_from(s, pat, 0)
}

/// Splits `s` at every occurrence of the separator `pat`.
pub fn split_text(s: &Vec<char>, pat: &Vec<char>) -> (parts: Vec<Vec<char>>)
    requires
        pat@.len() > 0,
    ensures
        rows(parts@) == split(s@, pat@),
{
    let mut parts: Vec<Vec<char>> = Vec::new();
    let mut from: usize = 0;
    proof {
        assert(rows(parts@) =~= Seq::<Seq<char>>::empty());
    }
    loop
        invariant
            from <= s.len(),
            pat@.len() > 0,
            split(s@, pat@) == rows(parts@) + split_from(s@, pat@, from as int),
        decreases s.len() + 1 - from,
    {
        let ghost before = rows(parts@);
        match find(s, pat, from) {
            Some(i) => {
                proof {
                    lemma_find_from(s@, pat@, from as int);
                }
                let piece = slice(s, from, i);
                parts.push(piece);
                proof {
                    assert(rows(parts@) =~= before.push(piece@));
                    assert(before + (seq![piece@] + split_from(s@, pat@, i + pat@.len()))
                        =~= before.push(piece@) + split_from(s@, pat@, i + pat@.len()));
                }
                from = i + pat.len();
            },
            None => {
                let piece = slice(s, from, s.len());
                parts.push(piece);
                proof {
                    assert(rows(parts@) =~= before.push(piece@));
                    assert(before + seq![piece@] =~= before.push(piece@));
                }
                return parts;
            },
        }
    }
}

/// The first position at or after `from` that holds no white space.
pub open spec fn skip_spaces(s: Seq<char>, from: int) -> int
    decreases s.len() - from,
{
    if 0 <= from < s.len() && is_space(s[from]) {
        skip_spaces(s, from + 1)
    } else {
        from
    }
}

/// The end of the part of `s` before `to` that remains when the white space
/// at its end is taken away.
pub open spec fn skip_spaces_back(s: Seq<char>, to: int) -> int
    decreases to,
{
    if 0 < to <= s.len() && is_space(s[to - 1]) {
        skip_spaces_back(s, to - 1)
    } else {
        to
    }
}

/// `s` without the white space at its start and at its end.
pub open spec fn trim(s: Seq<char>) -> Seq<char> {
    let a = skip_spaces(s, 0);
    let b = skip_spaces_back(s, s.len() as int);
    if a < b {
        s.subrange(a, b)
    } else {
        Seq::empty()
    }
}

/// `skip_spaces` stays within the text and stops at its end or at a
/// character that is no white space; everything it passed is white space.
pub proof fn lemma_skip_spaces(s: Seq<char>, from: int)
    requires
        0 <= from <= s.len(),
    ensures
        from <= skip_spaces(s, from) <= s.len(),
        skip_spaces(s, from) < s.len() ==> !is_space(s[skip_spaces(s, from)]),
        forall|j: int| from <= j < skip_spaces(s, from) ==> is_space(s[j]),
    decreases s.len() - from,
{
    if from < s.len() && is_space(s[from]) {
        lemma_skip_spaces(s, from + 1);
    }
}

/// `skip_spaces_back` stays within the text and stops at its start or after
/// a character that is no white space; everything it passed is white space.
pub proof fn lemma_skip_spaces_back(s: Seq<char>, to: int)
    requires
        0 <= to <= s.len(),
    ensures
        0 <= skip_spaces_back(s, to) <= to,
        skip_spaces_back(s, to) > 0 ==> !is_space(s[skip_spaces_back(s, to) - 1]),
        forall|j: int| skip_spaces_back(s, to) <= j < to ==> is_space(s[j]),
    decreases to,
{
    if 0 < to && is_space(s[to - 1]) {
        lemma_skip_spaces_back(s, to - 1);
    }
}

/// Removes the white space at both ends of `s`.
pub fn trim_text(s: &Vec<char>) -> (r: Vec<char>)
    ensures
        r@ == trim(s@),
{
    let n: usize = s.len();
    let mut a: usize = 0;
    while a < n && is_whitespace(s[a])
        invariant
            n == s.len(),
            a <= n,
            skip_spaces(s@, 0) == skip_spaces(s@, a as int),
        decreases n - a,
    {
        a += 1;
    }
    let mut b: usize = n;
    while b > 0 && is_whitespace(s[b - 1])
        invariant
            n == s.len(),
            b <= n,
            skip_spaces_back(s@, n as int) == skip_spaces_back(s@, b as int),
        decreases b,
    {
        b -= 1;
    }
    if a < b {
        slice(s, a, b)
    } else {
        Vec::new()
    }
}

/// The first position at or after `from` that holds white space, or the
/// length of `s`.
pub open spec fn word_end(s: Seq<char>, from: int) -> int
    decreases s.len() - from,
{
    if 0 <= from < s.len() && !is_space(s[from]) {
        word_end(s, from + 1)
    } else {
        from
    }
}

/// The words of `s` that start at or after `from`.
pub open spec fn words_from(s: Seq<char>, from: int) -> Seq<Seq<char>>
    decreases s.len() - from,
{
    let a = skip_spaces(s, from);
    if 0 <= from <= a < s.len() {
        let b = word_end(s, a + 1);
        proof {
            lemma_word_end(s, a + 1);
        }
        seq![s.subrange(a, b)] + words_from(s, b)
    } else {
        Seq::empty()
    }
}

/// The words of `s`: its longest runs of characters that are no white space,
/// from left to right.
pub open spec fn words(s: Seq<char>) -> Seq<Seq<char>> {
    words_from(s, 0)
}

/// `word_end` moves forward, stays within the text, and passes no white space.
pub proof fn lemma_word_end(s: Seq<char>, from: int)
    requires
        0 <= from <= s.len(),
    ensures
        from <= word_end(s, from) <= s.len(),
        word_end(s, from) < s.len() ==> is_space(s[word_end(s, from)]),
        forall|j: int| from <= j < word_end(s, from) ==> !is_space(s[j]),
    decreases s.len() - from,
{
    if from < s.len() && !is_space(s[from]) {
        lemma_word_end(s, from + 1);
    }
}

/// Splits `s` into its words.
pub fn split_words(s: &Vec<char>) -> (r: Vec<Vec<char>>)
    ensures
        rows(r@) == words(s@),
{
    let n: usize = s.len();
    let mut r: Vec<Vec<char>> = Vec::new();
    let mut from: usize = 0;
    proof {
        assert(rows(r@) =~= Seq::<Seq<char>>::empty());
    }
    loop
        invariant
            n == s.len(),
            from <= n,
            words(s@) == rows(r@) + words_from(s@, from as int),
        decreases n + 1 - from,
    {
        let mut a: usize = from;
        while a < n && is_whitespace(s[a])
            invariant
                n == s.len(),
                from <= a <= n,
                skip_spaces(s@, from as int) == skip_spaces(s@, a as int),
            decreases n - a,
        {
            a += 1;
        }
        if a >= n {
            proof {
                assert(rows(r@) + Seq::<Seq<char>>::empty() =~= rows(r@));
            }
            return r;
        }
        let mut b: usize = a + 1;
        while b < n && !is_whitespace(s[b])
            invariant
                n == s.len(),
                a < b <= n,
                word_end(s@, a + 1) == word_end(s@, b as int),
            decreases n - b,
        {
            b += 1;
        }
        let ghost before = rows(r@);
        let word = slice(s, a, b);
        r.push(word);
        proof {
            assert(rows(r@) =~= before.push(word@));
            assert(before + (seq![word@] + words_from(s@, b as int)) =~= before.push(word@)
                + words_from(s@, b as int));
        }
        from = b;
    }
}

/// The first position at or after `from` that holds a line feed, or the
/// length of `s`.
pub open spec fn line_end(s: Seq<char>, from: int) -> int
    decreases s.len() - from,
{
    if 0 <= from < s.len() && s[from] != '\n' {
        line_end(s, from + 1)
    } else {
        from
    }
}

/// `line` without the carriage return at its end, if it has one.
pub open spec fn without_cr(line: Seq<char>) -> Seq<char> {
    if line.len() > 0 && line.last() == '\r' {
        line.drop_last()
    } else {
        line
    }
}

/// `line_end` moves forward, stays within the text, and passes no line feed.
pub proof fn lemma_line_end(s: Seq<char>, from: int)
    requires
        0 <= from <= s.len(),
    ensures
        from <= line_end(s, from) <= s.len(),
        line_end(s, from) < s.len() ==> s[line_end(s, from)] == '\n',
        forall|j: int| from <= j < line_end(s, from) ==> s[j] != '\n',
    decreases s.len() - from,
{
    if from < s.len() && s[from] != '\n' {
        lemma_line_end(s, from + 1);
    }
}

/// The lines of `s` that start at or after `from`.
pub open spec fn lines_from(s: Seq<char>, from: int) -> Seq<Seq<char>>
    decreases s.len() - from,
{
    if 0 <= from < s.len() {
        let e = line_end(s, from);
        proof {
            lemma_line_end(s, from);
        }
        if e < s.len() {
            seq![without_cr(s.subrange(from, e))] + lines_from(s, e + 1)
        } else {
            seq![s.subrange(from, e)]
        }
    } else {
        Seq::empty()
    }
}

/// The lines of `s`. A line ends at a line feed, or at a carriage return
/// directly followed by a line feed; neither belongs to the line. What
/// follows the last line feed is a line too, unless it is empty. A carriage
/// return that no line feed follows stays in its line.
pub open spec fn lines(s: Seq<char>) -> Seq<Seq<char>> {
    lines_from(s, 0)
}

/// Splits `s` into its lines.
pub fn split_lines(s: &Vec<char>) -> (r: Vec<Vec<char>>)
    ensures
        rows(r@) == lines(s@),
{
    let n: usize = s.len();
    let mut r: Vec<Vec<char>> = Vec::new();
    let mut from: usize = 0;
    proof {
        assert(rows(r@) =~= Seq::<Seq<char>>::empty());
    }
    while from < n
        invariant
            n == s.len(),
            from <= n,
            lines(s@) == rows(r@) + lines_from(s@, from as int),
        decreases n - from,
    {
        let mut e: usize = from;
        while e < n && s[e] != '\n'
            invariant
                n == s.len(),
                from <= e <= n,
                line_end(s@, from as int) == line_end(s@, e as int),
            decreases n - e,
        {
            e += 1;
        }
        let ghost before = rows(r@);
        if e < n {
            let line = if from < e && s[e - 1] == '\r' {
                slice(s, from, e - 1)
            } else {
                slice(s, from, e)
            };
            proof {
                let whole = s@.subrange(from as int, e as int);
                if from < e && s@[e - 1] == '\r' {
                    assert(whole.last() == '\r');
                    assert(whole.drop_last() =~= s@.subrange(from as int, e - 1));
                }
                assert(line@ == without_cr(whole));
            }
            r.push(line);
            proof {
                assert(rows(r@) =~= before.push(line@));
                assert(before + (seq![line@] + lines_from(s@, e + 1)) =~= before.push(line@)
                    + lines_from(s@, e + 1));
            }
            from = e + 1;
        } else {
            let line = slice(s, from, e);
            r.push(line);
            proof {
                assert(rows(r@) =~= before.push(line@));
                assert(before + seq![line@] =~= before.push(line@) + lines_from(s@, n as int));
            }
            from = n;
        }
    }
    proof {
        assert(rows(r@) + Seq::<Seq<char>>::empty() =~= rows(r@));
    }
    r
}

} // verus!
