//! Directory walks, as the services read them.
use vstd::prelude::*;

verus! {

/// One entry of a directory walk.
#[derive(Debug)]
pub struct WalkEntry {
    /// The entry's path: the root for depth 0, else the root joined with
    /// the names below it.
    pub path: String,
    /// Levels below the root (the root itself is at depth 0).
    pub depth: usize,
    /// The entry is a regular file (symbolic links are not followed).
    pub is_file: bool,
    /// The entry is a directory (symbolic links are not followed).
    pub is_dir: bool,
}

/// `walkdir::WalkDir::new(root).max_depth(max_depth)`: the readable entries
/// under `root`, the root included. What the walk finds depends on the disk;
/// the crate documents that no entry deeper than `max_depth` is yielded.
#[verifier::external_body]
pub fn walk_dir(root: &str, max_depth: usize) -> (r: Vec<WalkEntry>)
    ensures
        forall|i: int| 0 <= i < r.len() ==> (#[trigger] r@[i]).depth <= max_depth,
{
    walkdir::WalkDir::new(root).max_depth(max_depth).into_iter().filter_map(|e| e.ok()).map(
        |e| WalkEntry {
            path: e.path().to_string_lossy().into_owned(),
            depth: e.depth(),
            is_file: e.file_type().is_file(),
            is_dir: e.file_type().is_dir(),
        },
    ).collect()
}

/// `walkdir::WalkDir::new(root)`, stopping at the first entry that cannot be
/// read: all entries, or that error's message. What the walk finds depends
/// on the disk: nothing is stated of it.
#[verifier::external_body]
pub fn walk_dir_strict(root: &str) -> (r: Result<Vec<WalkEntry>, String>) {
    walkdir::WalkDir::new(root).into_iter().map(
        |e| {
            e.map(
                |e| WalkEntry {
                    path: e.path().to_string_lossy().into_owned(),
                    depth: e.depth(),
                    is_file: e.file_type().is_file(),
                    is_dir: e.file_type().is_dir(),
                },
            ).map_err(|e| e.to_string())
        },
    ).collect()
}

} // verus!
