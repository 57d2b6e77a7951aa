//! Cutting a line out of the audio: whether a line can be cut, and the name
//! of the file that the clip is written to.

use vstd::prelude::*;
use crate::model::{DisplayLine, DisplayLineView};
use crate::strings::{chars_of, lowercase, string_of};
use crate::text::{rows, split_words, words};

verus! {

/// The number of words of a line that make the name of its clip.
pub const NAME_WORDS: usize = 3;

/// The texts of `parts` in a row, with `sep` between each two of them.
pub open spec fn joined(parts: Seq<Seq<char>>, sep: Seq<char>) -> Seq<char>
    decreases parts.len(),
{
    if parts.len() == 0 {
        Seq::empty()
    } else if parts.len() == 1 {
        parts[0]
    } else {
        joined(parts.drop_last(), sep) + sep + parts.last()
    }
}

/// The first `n` words of a text, or all of them where there are fewer.
pub open spec fn first_words(text: Seq<char>, n: nat) -> Seq<Seq<char>> {
    if n < words(text).len() {
        words(text).take(n as int)
    } else {
        words(text)
    }
}

/// The first three words of a text, joined by underscores: the name of a
/// clip before it is put in lowercase.
pub open spec fn name_stem(text: Seq<char>) -> Seq<char> {
    joined(first_words(text, NAME_WORDS as nat), seq!['_'])
}

/// The name of the clip of a line with the given text: its first three
/// words, joined by underscores, in lowercase.
pub open spec fn clip_name(text: Seq<char>) -> Seq<char> {
    lowercase(name_stem(text))
}

/// The ending of the name of an audio file.
pub open spec fn wav_suffix() -> Seq<char> {
    seq!['.', 'w', 'a', 'v']
}

/// The path of a clip named `name` in the directory `dir`.
pub open spec fn clip_path(dir: Seq<char>, name: Seq<char>) -> Seq<char> {
    dir + seq!['/'] + name + wav_suffix()
}

/// The first three words of `text`, joined by underscores.
pub fn stem_of(text: &str) -> (r: Vec<char>)
    ensures
        r@ == name_stem(text@),
{
    let found = split_words(&chars_of(text));
    let n: usize = if NAME_WORDS < found.len() {
        NAME_WORDS
    } else {
        found.len()
    };
    let ghost wanted = first_words(text@, NAME_WORDS as nat);
    proof {
        assert(wanted =~= rows(found@).take(n as int));
        assert(wanted.take(0) =~= Seq::<Seq<char>>::empty());
    }
    let mut r: Vec<char> = Vec::new();
    let mut i: usize = 0;
    while i < n
        invariant
            i <= n <= found.len(),
            wanted == rows(found@).take(n as int),
            r@ == joined(wanted.take(i as int), seq!['_']),
        decreases n - i,
    {
        let ghost so_far = r@;
        if i > 0 {
            r.push('_');
        }
        let word = &found[i];
        let mut j: usize = 0;
        let ghost base = r@;
        while j < word.len()
            invariant
                j <= word.len(),
                r@ == base + word@.take(j as int),
            decreases word.len() - j,
        {
            r.push(word[j]);
            proof {
                assert(r@ =~= base + word@.take(j + 1));
            }
            j += 1;
        }
        proof {
            let next = wanted.take(i + 1);
            assert(word@.take(word.len() as int) =~= word@);
            assert(next.drop_last() =~= wanted.take(i as int));
            assert(next.last() == word@);
            if i == 0 {
                assert(r@ =~= word@);
            } else {
                assert(r@ =~= so_far + seq!['_'] + word@);
            }
        }
        i += 1;
    }
    proof {
        assert(wanted.take(n as int) =~= wanted);
    }
    r
}

/// The name of the clip of a line with the text `text`.
pub fn output_name(text: &str) -> (r: String)
    ensures
        r@ == clip_name(text@),
{
    let stem = string_of(&stem_of(text));
    stem.as_str().to_lowercase()
}

/// The path that the clip named `name` is written to in `output_dir`.
pub fn output_path(output_dir: &str, name: &str) -> (r: String)
    ensures
        r@ == clip_path(output_dir@, name@),
{
    proof {
        reveal_strlit("/");
        reveal_strlit(".wav");
    }
    let r = String::from_str(output_dir).concat("/").concat(name).concat(".wav");
    proof {
        assert("/"@ =~= seq!['/']);
        assert(".wav"@ =~= wav_suffix());
    }
    r
}

/// Why a line cannot be cut out or played.
#[derive(Debug, Clone, Copy, PartialEq, Eq)]
pub enum ClipError {
    /// There is no line at the position.
    NoLine,
    /// The audio file that goes with the line's caption file is missing.
    AudioMissing,
    /// The end of the line does not come after its start.
    InvalidRange,
}

/// What is to be cut out of the audio for a line.
#[derive(Debug, PartialEq, Eq)]
pub struct Clip {
    /// The caption file of the line.
    pub file: String,
    /// Where the clip starts, in milliseconds.
    pub start: u64,
    /// How long the clip is, in milliseconds; never zero.
    pub duration: u64,
    /// The name of the clip, without directory and ending.
    pub name: String,
}

/// What a `Clip` stands for.
pub struct ClipView {
    pub file: Seq<char>,
    pub start: nat,
    pub duration: nat,
    pub name: Seq<char>,
}

impl View for Clip {
    type V = ClipView;

    open spec fn view(&self) -> ClipView {
        ClipView {
            file: self.file@,
            start: self.start as nat,
            duration: self.duration as nat,
            name: self.name@,
        }
    }
}

/// The clip of a line.
pub open spec fn clip_of(line: DisplayLineView) -> ClipView {
    ClipView {
        file: line.file,
        start: line.start,
        duration: (line.end - line.start) as nat,
        name: clip_name(line.text),
    }
}

/// The clip at position `idx`, or why there is none. The errors are tried in
/// this order: no line at the position; the audio file is missing; the end
/// is not after the start.
pub open spec fn planned(lines: Seq<DisplayLineView>, idx: int, audio_found: bool) -> Result<
    ClipView,
    ClipError,
> {
    if !(0 <= idx < lines.len()) {
        Err(ClipError::NoLine)
    } else if !audio_found {
        Err(ClipError::AudioMissing)
    } else if lines[idx].end <= lines[idx].start {
        Err(ClipError::InvalidRange)
    } else {
        Ok(clip_of(lines[idx]))
    }
}

/// The view of a planned clip.
pub open spec fn plan_view(r: Result<Clip, ClipError>) -> Result<ClipView, ClipError> {
    match r {
        Ok(clip) => Ok(clip@),
        Err(e) => Err(e),
    }
}

/// Decides whether line `idx` of `lines` can be cut out or played, and what
/// is to be cut. `audio_found` says whether the audio file that goes with
/// the line's caption file exists; it plays no part where there is no line.
pub fn plan_clip(lines: &Vec<DisplayLine>, idx: usize, audio_found: bool) -> (r: Result<
    Clip,
    ClipError,
>)
    ensures
        plan_view(r) == planned(crate::model::line_views(lines@), idx as int, audio_found),
{
    proof {
        assert(crate::model::line_views(lines@).len() == lines.len());
    }
    if idx >= lines.len() {
        return Err(ClipError::NoLine);
    }
    let line = &lines[idx];
    proof {
        assert(crate::model::line_views(lines@)[idx as int] == line@);
    }
    if !audio_found {
        return Err(ClipError::AudioMissing);
    }
    if line.end <= line.start {
        return Err(ClipError::InvalidRange);
    }
    Ok(
        Clip {
            file: line.file.clone(),
            start: line.start,
            duration: line.end - line.start,
            name: output_name(line.text.as_str()),
        },
    )
}

} // verus!
