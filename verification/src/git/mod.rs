//! Git-facing parts: errors, commits and their metadata, merge statistics and conflict
//! heuristics, and the commands and output handling of the git command line.

pub mod checker;
pub mod commit;
pub mod conflict;
pub mod error;
pub mod interface;
