//! The state of an interactive session and its commands.
//!
//! A session owns the index, the query, the matches of the query, the
//! flattened list and the selection. Each command runs to its end before
//! the next; `App::apply` is the whole of what a command does to the state,
//! and what it reports. Reading files, drawing and playing audio are left to
//! the caller.

use vstd::prelude::*;
use crate::caption::MAX_CONTEXT;
use crate::clip::{plan_clip, plan_view, planned, Clip, ClipError};
use crate::context::{flatten_results, flattened};
use crate::editor::{
    adjust_end_time, adjust_start_time, after_adjust_end, after_adjust_start, after_reset,
    end_outcome, reset_times, selects, start_outcome, Adjustment, FINE_TIME_ADJUST,
    NORMAL_TIME_ADJUST,
};
use crate::index::{
    files_of, is_first_failure, load_reads, loaded, read_views, CaptionFile, LoadError,
};
use crate::model::{
    line_views, match_views, DisplayLine, DisplayLineView, MatchResult, MatchResultView,
};
use crate::query::{filter_results, filtered};
use crate::session_laws::{
    lemma_started_is_well_formed, lemma_step_keeps_well_formed, well_formed,
};

verus! {

/// A key of the keyboard, as far as the session tells keys apart.
#[derive(Debug, Clone, Copy, PartialEq, Eq)]
pub enum Key {
    Char(char),
    Backspace,
    Enter,
    Tab,
    Esc,
    Up,
    Down,
    Other,
}

/// What a key asks of the session.
#[derive(Debug, Clone, Copy, PartialEq, Eq)]
pub enum Command {
    /// End the session.
    Quit,
    /// Show one more context line on each side of a match.
    MoreContext,
    /// Show one context line fewer on each side of a match.
    LessContext,
    /// Move the start of the selected line by so many milliseconds.
    MoveStart(i64),
    /// Move the end of the selected line by so many milliseconds.
    MoveEnd(i64),
    /// Set the selected line back to its original times.
    Reset,
    /// Play the selected line.
    Preview,
    /// Cut the selected line out of the audio.
    Extract,
    /// Add a character to the query.
    Type(char),
    /// Take the last character off the query.
    Erase,
    /// Select the line above.
    Up,
    /// Select the line below.
    Down,
    /// Nothing.
    Idle,
}

/// What a command did, for the caller to report or to act on.
#[derive(Debug, Clone, Copy, PartialEq, Eq)]
pub enum Outcome {
    /// The session is to end.
    Quit,
    /// There is nothing to report.
    Nothing,
    /// The context depth is now the given one, and the list was rebuilt.
    ContextSet(usize),
    /// The context depth is at its greatest and stays there.
    ContextAtMaximum,
    /// The context depth is zero and stays there.
    ContextAtMinimum,
    /// A move of the start by the given milliseconds ended as given.
    StartMoved(i64, Adjustment),
    /// A move of the end by the given milliseconds ended as given.
    EndMoved(i64, Adjustment),
    /// The selected line has its original times again.
    TimesReset,
    /// The command needs a selected line, and none is selected.
    NoLineSelected,
    /// The caller is to play the line at the given position.
    Preview(usize),
    /// The caller is to cut out the line at the given position.
    Extract(usize),
    /// The query changed: so many matches, so many lines in the list.
    Filtered(usize, usize),
}

/// The command that a key stands for.
///
/// `q` quits; `+` and `-` change the context depth; `,` and `.` move the
/// start back and forth by the normal step, `<` and `>` by the fine step;
/// `[` and `]` move the end by the normal step, `{` and `}` by the fine
/// step; escape resets; tab plays; enter cuts; any other character is typed
/// into the query; backspace erases; the arrows move the selection.
pub open spec fn command_of(key: Key) -> Command {
    match key {
        Key::Char(c) => if c == 'q' {
            Command::Quit
        } else if c == '+' {
            Command::MoreContext
        } else if c == '-' {
            Command::LessContext
        } else if c == ',' {
            Command::MoveStart((-NORMAL_TIME_ADJUST) as i64)
        } else if c == '.' {
            Command::MoveStart(NORMAL_TIME_ADJUST)
        } else if c == '<' {
            Command::MoveStart((-FINE_TIME_ADJUST) as i64)
        } else if c == '>' {
            Command::MoveStart(FINE_TIME_ADJUST)
        } else if c == '[' {
            Command::MoveEnd((-NORMAL_TIME_ADJUST) as i64)
        } else if c == ']' {
            Command::MoveEnd(NORMAL_TIME_ADJUST)
        } else if c == '{' {
            Command::MoveEnd((-FINE_TIME_ADJUST) as i64)
        } else if c == '}' {
            Command::MoveEnd(FINE_TIME_ADJUST)
        } else {
            Command::Type(c)
        },
        Key::Backspace => Command::Erase,
        Key::Enter => Command::Extract,
        Key::Tab => Command::Preview,
        Key::Esc => Command::Reset,
        Key::Up => Command::Up,
        Key::Down => Command::Down,
        Key::Other => Command::Idle,
    }
}

/// The command that `key` stands for.
pub fn command(key: Key) -> (c: Command)
    ensures
        c == command_of(key),
{
    match key {
        Key::Char(c) => if c == 'q' {
            Command::Quit
        } else if c == '+' {
            Command::MoreContext
        } else if c == '-' {
            Command::LessContext
        } else if c == ',' {
            Command::MoveStart(-NORMAL_TIME_ADJUST)
        } else if c == '.' {
            Command::MoveStart(NORMAL_TIME_ADJUST)
        } else if c == '<' {
            Command::MoveStart(-FINE_TIME_ADJUST)
        } else if c == '>' {
            Command::MoveStart(FINE_TIME_ADJUST)
        } else if c == '[' {
            Command::MoveEnd(-NORMAL_TIME_ADJUST)
        } else if c == ']' {
            Command::MoveEnd(NORMAL_TIME_ADJUST)
        } else if c == '{' {
            Command::MoveEnd(-FINE_TIME_ADJUST)
        } else if c == '}' {
            Command::MoveEnd(FINE_TIME_ADJUST)
        } else {
            Command::Type(c)
        },
        Key::Backspace => Command::Erase,
        Key::Enter => Command::Extract,
        Key::Tab => Command::Preview,
        Key::Esc => Command::Reset,
        Key::Up => Command::Up,
        Key::Down => Command::Down,
        Key::Other => Command::Idle,
    }
}

/// The state of a session.
#[derive(Debug)]
pub struct App {
    /// The query as typed.
    pub search_query: String,
    /// The index: every segment of every file.
    pub all_results: Vec<MatchResult>,
    /// The segments that satisfy the query.
    pub filtered_results: Vec<MatchResult>,
    /// The flattened list, with the edits made to it.
    pub flat_results: Vec<DisplayLine>,
    /// The selected position in the flattened list.
    pub selected_idx: Option<usize>,
    /// The context depth.
    pub context_lines: usize,
}

/// What an `App` stands for.
pub struct AppView {
    pub query: Seq<char>,
    pub all: Seq<MatchResultView>,
    pub filtered: Seq<MatchResultView>,
    pub flat: Seq<DisplayLineView>,
    pub selected: Option<usize>,
    pub context_lines: nat,
}

impl View for App {
    type V = AppView;

    open spec fn view(&self) -> AppView {
        AppView {
            query: self.search_query@,
            all: match_views(self.all_results@),
            filtered: match_views(self.filtered_results@),
            flat: line_views(self.flat_results@),
            selected: self.selected_idx,
            context_lines: self.context_lines as nat,
        }
    }
}

/// The first position of a list, if it has one.
pub open spec fn first_of(len: nat) -> Option<usize> {
    if len == 0 {
        None
    } else {
        Some(0usize)
    }
}

/// The state after the flattened list is built anew from the matches and
/// the depth. Edits of the old list are gone; the selection stays.
pub open spec fn reflattened(s: AppView) -> AppView {
    AppView { flat: flattened(s.filtered, s.context_lines), ..s }
}

/// The state after the matches are found anew for the query, the list is
/// built anew, and the first line, if there is one, is selected.
pub open spec fn refiltered(s: AppView) -> AppView {
    let found = filtered(s.all, s.query);
    let flat = flattened(found, s.context_lines);
    AppView { filtered: found, flat, selected: first_of(flat.len()), ..s }
}

/// The state of a new session over `all`: no query, depth zero.
pub open spec fn started(all: Seq<MatchResultView>) -> AppView {
    refiltered(
        AppView {
            query: Seq::empty(),
            all,
            filtered: Seq::empty(),
            flat: Seq::empty(),
            selected: None,
            context_lines: 0,
        },
    )
}

/// The selection after a step up: one line up, but not past the first. With
/// nothing selected, the first line, if there is one.
pub open spec fn moved_up(selected: Option<usize>, len: nat) -> Option<usize> {
    match selected {
        Some(i) => if i > 0 {
            Some((i - 1) as usize)
        } else {
            Some(i)
        },
        None => first_of(len),
    }
}

/// The selection after a step down: one line down, but not past the last.
/// With nothing selected, the first line, if there is one.
pub open spec fn moved_down(selected: Option<usize>, len: nat) -> Option<usize> {
    match selected {
        Some(i) => if i + 1 < len {
            Some((i + 1) as usize)
        } else {
            Some(i)
        },
        None => first_of(len),
    }
}

/// The query after its last character is taken off.
pub open spec fn erased(query: Seq<char>) -> Seq<char> {
    if query.len() > 0 {
        query.drop_last()
    } else {
        query
    }
}

/// The report of a changed query.
pub open spec fn filter_report(s: AppView) -> Outcome {
    Outcome::Filtered(s.filtered.len() as usize, s.flat.len() as usize)
}

/// The state after a command, and what the command reports.
pub open spec fn step(s: AppView, command: Command) -> (AppView, Outcome) {
    match command {
        Command::Quit => (s, Outcome::Quit),
        Command::MoreContext => if s.context_lines < MAX_CONTEXT {
            (
                reflattened(AppView { context_lines: s.context_lines + 1, ..s }),
                Outcome::ContextSet((s.context_lines + 1) as usize),
            )
        } else {
            (s, Outcome::ContextAtMaximum)
        },
        Command::LessContext => if s.context_lines > 0 {
            (
                reflattened(AppView { context_lines: (s.context_lines - 1) as nat, ..s }),
                Outcome::ContextSet((s.context_lines - 1) as usize),
            )
        } else {
            (s, Outcome::ContextAtMinimum)
        },
        Command::MoveStart(delta) => (
            AppView { flat: after_adjust_start(s.flat, s.selected, delta as int), ..s },
            Outcome::StartMoved(delta, start_outcome(s.flat, s.selected, delta as int)),
        ),
        Command::MoveEnd(delta) => (
            AppView { flat: after_adjust_end(s.flat, s.selected, delta as int), ..s },
            Outcome::EndMoved(delta, end_outcome(s.flat, s.selected, delta as int)),
        ),
        Command::Reset => (
            AppView { flat: after_reset(s.flat, s.selected), ..s },
            if s.selected is None {
                Outcome::NoLineSelected
            } else if selects(s.selected, s.flat.len()) {
                Outcome::TimesReset
            } else {
                Outcome::Nothing
            },
        ),
        Command::Preview => (
            s,
            match s.selected {
                Some(idx) => Outcome::Preview(idx),
                None => Outcome::NoLineSelected,
            },
        ),
        Command::Extract => (
            s,
            match s.selected {
                Some(idx) => Outcome::Extract(idx),
                None => Outcome::NoLineSelected,
            },
        ),
        Command::Type(c) => {
            let next = refiltered(AppView { query: s.query.push(c), ..s });
            (next, filter_report(next))
        },
        Command::Erase => {
            let next = refiltered(AppView { query: erased(s.query), ..s });
            (next, filter_report(next))
        },
        Command::Up => (
            AppView { selected: moved_up(s.selected, s.flat.len()), ..s },
            Outcome::Nothing,
        ),
        Command::Down => (
            AppView { selected: moved_down(s.selected, s.flat.len()), ..s },
            Outcome::Nothing,
        ),
        Command::Idle => (s, Outcome::Nothing),
    }
}

impl App {
    /// A new session over the files of `reads`: the index is built, the
    /// query is empty, the depth is zero, every segment is a match, and the
    /// first line, if there is one, is selected. Where a file could not be
    /// read, there is no session, and the error names the first such file.
    pub fn new(reads: &Vec<Option<CaptionFile>>) -> (r: Result<App, LoadError>)
        ensures
            match r {
                Ok(app) => {
                    &&& forall|i: int| 0 <= i < reads.len() ==> (#[trigger] reads[i]) is Some
                    &&& app@ == started(loaded(files_of(read_views(reads@))))
                    &&& well_formed(app@)
                },
                Err(LoadError::ReadFailed(i)) => is_first_failure(read_views(reads@), i as int),
            },
    {
        match load_reads(reads) {
            Ok(all) => {
                let mut app = App {
                    search_query: String::new(),
                    all_results: all,
                    filtered_results: Vec::new(),
                    flat_results: Vec::new(),
                    selected_idx: None,
                    context_lines: 0,
                };
                app.filter_results();
                proof {
                    lemma_started_is_well_formed(loaded(files_of(read_views(reads@))));
                }
                Ok(app)
            },
            Err(e) => Err(e),
        }
    }

    /// Builds the index anew from the files of `reads` and puts it in place
    /// of the old one; the matches and the list stay as they are until the
    /// query is applied again. Where a file could not be read, nothing
    /// changes, and the error names the first such file.
    pub fn load_all_results(&mut self, reads: &Vec<Option<CaptionFile>>) -> (r: Result<
        (),
        LoadError,
    >)
        ensures
            match r {
                Ok(_) => {
                    &&& forall|i: int| 0 <= i < reads.len() ==> (#[trigger] reads[i]) is Some
                    &&& final(self)@ == (AppView {
                        all: loaded(files_of(read_views(reads@))),
                        ..old(self)@
                    })
                },
                Err(LoadError::ReadFailed(i)) => {
                    &&& is_first_failure(read_views(reads@), i as int)
                    &&& final(self)@ == old(self)@
                },
            },
    {
        match load_reads(reads) {
            Ok(all) => {
                self.all_results = all;
                Ok(())
            },
            Err(e) => Err(e),
        }
    }

    /// Finds the matches of the query anew, builds the list anew, and
    /// selects the first line, if there is one.
    pub fn filter_results(&mut self)
        ensures
            final(self)@ == refiltered(old(self)@),
    {
        self.filtered_results = filter_results(&self.all_results, self.search_query.as_str());
        self.flatten_results();
        self.selected_idx = if self.flat_results.len() == 0 {
            None
        } else {
            Some(0)
        };
        proof {
            assert(line_views(self.flat_results@).len() == self.flat_results.len());
        }
    }

    /// Builds the flattened list anew from the matches and the depth.
    pub fn flatten_results(&mut self)
        ensures
            final(self)@ == reflattened(old(self)@),
    {
        self.flat_results = flatten_results(&self.filtered_results, self.context_lines);
    }

    /// Moves the start of the selected line; see `editor::adjust_start_time`.
    pub fn adjust_start_time(&mut self, delta_ms: i64) -> (r: Adjustment)
        ensures
            final(self)@ == (AppView {
                flat: after_adjust_start(old(self)@.flat, old(self)@.selected, delta_ms as int),
                ..old(self)@
            }),
            r == start_outcome(old(self)@.flat, old(self)@.selected, delta_ms as int),
    {
        adjust_start_time(&mut self.flat_results, self.selected_idx, delta_ms)
    }

    /// Moves the end of the selected line; see `editor::adjust_end_time`.
    pub fn adjust_end_time(&mut self, delta_ms: i64) -> (r: Adjustment)
        ensures
            final(self)@ == (AppView {
                flat: after_adjust_end(old(self)@.flat, old(self)@.selected, delta_ms as int),
                ..old(self)@
            }),
            r == end_outcome(old(self)@.flat, old(self)@.selected, delta_ms as int),
    {
        adjust_end_time(&mut self.flat_results, self.selected_idx, delta_ms)
    }

    /// Decides whether line `idx` can be cut out, and what is to be cut;
    /// see `clip::plan_clip`.
    pub fn extract_flat_line(&self, idx: usize, audio_found: bool) -> (r: Result<Clip, ClipError>)
        ensures
            plan_view(r) == planned(self@.flat, idx as int, audio_found),
    {
        plan_clip(&self.flat_results, idx, audio_found)
    }

    /// Decides whether line `idx` can be played, and what is to be played;
    /// see `clip::plan_clip`.
    pub fn preview_flat_line(&self, idx: usize, audio_found: bool) -> (r: Result<Clip, ClipError>)
        ensures
            plan_view(r) == planned(self@.flat, idx as int, audio_found),
    {
        plan_clip(&self.flat_results, idx, audio_found)
    }

    /// Carries out a command: the state becomes what `step` says, and the
    /// result is what `step` reports. A well-formed state stays well formed.
    pub fn apply(&mut self, command: Command) -> (r: Outcome)
        ensures
            (final(self)@, r) == step(old(self)@, command),
            well_formed(old(self)@) ==> well_formed(final(self)@),
    {
        proof {
            assert(line_views(self.flat_results@).len() == self.flat_results.len());
            if well_formed(self@) {
                lemma_step_keeps_well_formed(self@, command);
            }
        }
        match command {
            Command::Quit => Outcome::Quit,
            Command::MoreContext => {
                if self.context_lines < MAX_CONTEXT {
                    self.context_lines += 1;
                    self.flatten_results();
                    Outcome::ContextSet(self.context_lines)
                } else {
                    Outcome::ContextAtMaximum
                }
            },
            Command::LessContext => {
                if self.context_lines > 0 {
                    self.context_lines -= 1;
                    self.flatten_results();
                    Outcome::ContextSet(self.context_lines)
                } else {
                    Outcome::ContextAtMinimum
                }
            },
            Command::MoveStart(delta) => {
                let result = self.adjust_start_time(delta);
                Outcome::StartMoved(delta, result)
            },
            Command::MoveEnd(delta) => {
                let result = self.adjust_end_time(delta);
                Outcome::EndMoved(delta, result)
            },
            Command::Reset => {
                let selected = self.selected_idx;
                let done = reset_times(&mut self.flat_results, selected);
                if selected.is_none() {
                    Outcome::NoLineSelected
                } else if done {
                    Outcome::TimesReset
                } else {
                    Outcome::Nothing
                }
            },
            Command::Preview => match self.selected_idx {
                Some(idx) => Outcome::Preview(idx),
                None => Outcome::NoLineSelected,
            },
            Command::Extract => match self.selected_idx {
                Some(idx) => Outcome::Extract(idx),
                None => Outcome::NoLineSelected,
            },
            Command::Type(c) => {
                self.search_query.push(c);
                self.filter_results();
                proof {
                    assert(line_views(self.flat_results@).len() == self.flat_results.len());
                    assert(match_views(self.filtered_results@).len()
                        == self.filtered_results.len());
                }
                Outcome::Filtered(self.filtered_results.len(), self.flat_results.len())
            },
            Command::Erase => {
                self.search_query.pop();
                self.filter_results();
                proof {
                    assert(line_views(self.flat_results@).len() == self.flat_results.len());
                    assert(match_views(self.filtered_results@).len()
                        == self.filtered_results.len());
                }
                Outcome::Filtered(self.filtered_results.len(), self.flat_results.len())
            },
            Command::Up => {
                self.selected_idx = match self.selected_idx {
                    Some(i) => if i > 0 {
                        Some(i - 1)
                    } else {
                        Some(i)
                    },
                    None => if self.flat_results.len() == 0 {
                        None
                    } else {
                        Some(0)
                    },
                };
                Outcome::Nothing
            },
            Command::Down => {
                self.selected_idx = match self.selected_idx {
                    Some(i) => if i < usize::MAX && i + 1 < self.flat_results.len() {
                        Some(i + 1)
                    } else {
                        Some(i)
                    },
                    None => if self.flat_results.len() == 0 {
                        None
                    } else {
                        Some(0)
                    },
                };
                Outcome::Nothing
            },
            Command::Idle => Outcome::Nothing,
        }
    }

    /// Carries out the command that `key` stands for. A well-formed state
    /// stays well formed.
    pub fn handle_key(&mut self, key: Key) -> (r: Outcome)
        ensures
            (final(self)@, r) == step(old(self)@, command_of(key)),
            well_formed(old(self)@) ==> well_formed(final(self)@),
    {
        self.apply(command(key))
    }
}

} // verus!
