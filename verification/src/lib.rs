//! Fetching the refs of a remote that match a glob.
//!
//! * [`glob`] decides which ref names a glob selects: names and globs are
//!   lists of segments separated by `/`, and `*` stands for any one segment.
//! * [`listing`] reads the refs that a remote advertises out of the answer of
//!   a ref-source, one `<remote>:<ref-name>` to a line.
//! * [`fetch`] is the course of a whole fetch, as a state that names the next
//!   action and takes what came of it: list, select, report, then pull the
//!   selected refs in order until one fails.
//! * [`segments`] and [`text`] hold what the others stand on: splitting a byte
//!   string at a separator, and cutting UTF-8 text between characters.
//!
//! Nothing here touches a repository or a remote. The caller carries out the
//! actions.

pub mod fetch;
pub mod glob;
pub mod listing;
pub mod segments;
pub mod text;

pub use fetch::{Action, Event, Fetch, FetchError, PullOutcome};
pub use glob::{glob_match_refs, matches_glob, select_matching};
pub use listing::{parse_ref_lines, read_listing, CollaboratorError, ListOutcome};
