//! Page imposition for zines and saddle-stitch booklets: which reader page lands in which
//! cell of which printed sheet side, how many blank pages a format needs appended, and the
//! order in which imposed sheet sides become pages of the exported document.

pub mod imposition;
pub mod project;
pub mod export;
