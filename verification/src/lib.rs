//! Verified core of a git-backed software product line manager: qualified
//! paths, the branch tree model, merge statistics and conflict heuristics,
//! commit metadata framing and derivation bookkeeping.

pub mod git;
pub mod model;
pub mod paint;
pub mod spl;
pub mod text;
