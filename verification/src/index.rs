//! The index of a set of caption files: the segments of each file, one file
//! after the other.

use vstd::prelude::*;
use crate::caption::{captions, parse_captions};
use crate::model::{match_views, MatchResult, MatchResultView};
use crate::text::lines;

verus! {

/// A caption file that was read: its path and its text.
#[derive(Debug, PartialEq, Eq)]
pub struct CaptionFile {
    pub path: String,
    pub content: String,
}

/// What a `CaptionFile` stands for.
pub struct CaptionFileView {
    pub path: Seq<char>,
    pub content: Seq<char>,
}

impl View for CaptionFile {
    type V = CaptionFileView;

    open spec fn view(&self) -> CaptionFileView {
        CaptionFileView { path: self.path@, content: self.content@ }
    }
}

/// The segments of one file, as a function of the file.
pub open spec fn segments_of() -> spec_fn(CaptionFileView) -> Seq<MatchResultView> {
    |f: CaptionFileView| captions(f.path, lines(f.content))
}

/// The index of `files`: the segments of each file in file order, the files
/// in the order given. Nothing is sorted by time.
pub open spec fn loaded(files: Seq<CaptionFileView>) -> Seq<MatchResultView> {
    files.flat_map(segments_of())
}

/// Why an index could not be built.
#[derive(Debug, Clone, Copy, PartialEq, Eq)]
pub enum LoadError {
    /// The file at this position of the list could not be read.
    ReadFailed(usize),
}

/// The views of a list of attempts to read caption files; `None` stands for
/// a file that could not be read.
pub open spec fn read_views(s: Seq<Option<CaptionFile>>) -> Seq<Option<CaptionFileView>> {
    s.map_values(
        |r: Option<CaptionFile>|
            match r {
                Some(f) => Some(f@),
                None => None,
            },
    )
}

/// The files of a list of attempts that all succeeded.
pub open spec fn files_of(reads: Seq<Option<CaptionFileView>>) -> Seq<CaptionFileView> {
    reads.map_values(|r: Option<CaptionFileView>| r->0)
}

/// Whether `i` is the first position of `reads` where reading failed.
pub open spec fn is_first_failure(reads: Seq<Option<CaptionFileView>>, i: int) -> bool {
    &&& 0 <= i < reads.len()
    &&& reads[i] is None
    &&& forall|j: int| 0 <= j < i ==> (#[trigger] reads[j]) is Some
}

/// Builds the index of a list of files of which some may not have been
/// read. The load is all or nothing: where every file was read, the result
/// is the index of the files; where one was not, the result is the error
/// that names the first such file, and nothing of the other files.
pub fn load_reads(reads: &Vec<Option<CaptionFile>>) -> (r: Result<Vec<MatchResult>, LoadError>)
    ensures
        match r {
            Ok(all) => {
                &&& forall|i: int| 0 <= i < reads.len() ==> (#[trigger] reads[i]) is Some
                &&& match_views(all@) == loaded(files_of(read_views(reads@)))
            },
            Err(LoadError::ReadFailed(i)) => is_first_failure(read_views(reads@), i as int),
        },
{
    let mut all: Vec<MatchResult> = Vec::new();
    let ghost views = files_of(read_views(reads@));
    let mut i: usize = 0;
    proof {
        assert(views.take(0).map_values(segments_of()) =~= Seq::<Seq<MatchResultView>>::empty());
        assert(views.take(0).flat_map(segments_of()) =~= Seq::<MatchResultView>::empty());
        assert(match_views(all@) =~= Seq::<MatchResultView>::empty());
    }
    while i < reads.len()
        invariant
            i <= reads.len(),
            views == files_of(read_views(reads@)),
            forall|j: int| 0 <= j < i ==> (#[trigger] reads[j]) is Some,
            match_views(all@) == views.take(i as int).flat_map(segments_of()),
        decreases reads.len() - i,
    {
        match &reads[i] {
            None => {
                proof {
                    assert forall|j: int| 0 <= j < i implies (#[trigger] read_views(reads@)[j])
                        is Some by {
                        assert(reads[j] is Some);
                    }
                }
                return Err(LoadError::ReadFailed(i));
            },
            Some(file) => {
                let mut found = parse_captions(file.path.as_str(), file.content.as_str());
                let ghost before = match_views(all@);
                let ghost added = match_views(found@);
                proof {
                    assert(views[i as int] == file@);
                    assert(views.take(i + 1) =~= views.take(i as int).push(file@));
                    views.take(i as int).lemma_flat_map_push(segments_of(), file@);
                }
                all.append(&mut found);
                proof {
                    assert(match_views(all@) =~= before + added);
                }
            },
        }
        i += 1;
    }
    proof {
        assert(views.take(reads.len() as int) =~= views);
    }
    Ok(all)
}

} // verus!
