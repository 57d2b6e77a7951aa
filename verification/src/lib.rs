//! Search engine and timestamp editor for time-aligned transcripts.
//!
//! Caption files are read into time-stamped segments (`caption`, `index`),
//! the segments are filtered by a query (`query`), the matches are expanded
//! into a flattened list of matches and context lines (`context`), and the
//! times of a line of that list are edited within bounds (`editor`). The
//! state of an interactive session and its commands are in `session`; what
//! is cut out of the audio for a line is decided in `clip`.

pub mod caption;
pub mod caption_laws;
pub mod clip;
pub mod context;
pub mod context_laws;
pub mod editor;
pub mod editor_laws;
pub mod index;
pub mod model;
pub mod number;
pub mod query;
pub mod session;
pub mod session_laws;
pub mod strings;
pub mod text;
pub mod timestamp;
