/// Identity of filesystem objects.
pub mod identity;
/// Byte-string paths.
pub mod paths;
/// Redirected package entries and the directories they resolve to.
pub mod redirect;
/// The per-pair decision of the tree merge and its depth-first worklist.
pub mod merge;
/// The planning of a package's top-level entries.
pub mod package;
/// The command line.
pub mod args;
/// The tree merge as a whole, over a model of source and destination trees.
pub mod model;
/// What holds of whole merges and of redirect resolution.
pub mod laws;
