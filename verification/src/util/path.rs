//! Path text helpers for printing env trees relative to a start directory.
use vstd::prelude::*;

use crate::application::services::environment::{diff_paths, spec_diff_paths};
use crate::errors::TreeError;
use crate::infrastructure::traits::FileSystem;
use crate::text::{
    chars_of, concat, find, find_char, find_char_from, find_vec, join, join_newline, lines,
    replace_char, replace_char_exec, slice, split_lines, string_of, views,
};

verus! {

/// A path with `\` separators written as `/`.
pub fn normalize_path_separator(s: &str) -> (r: String)
    ensures
        r@ == replace_char(s@, '\\', '/'),
{
    string_of(&replace_char_exec(&chars_of(s), '\\', '/'))
}

/// The path from the first occurrence of `start` on; the whole path when
/// `start` does not occur.
pub open spec fn relativized(path: Seq<char>, start: Seq<char>) -> Seq<char> {
    match find(path, start) {
        Some(pos) => path.skip(pos),
        None => path,
    }
}

/// Convert a full path to a relative path starting at `start`.
pub fn relativize_path(path: &str, start: &str) -> (r: String)
    ensures
        r@ == relativized(path@, start@),
{
    let v = chars_of(path);
    match find_vec(&v, &chars_of(start)) {
        Some(pos) => {
            proof {
                crate::text::lemma_find_from(v@, start@, 0);
            }
            let s = slice(&v, pos, v.len());
            assert(s@ =~= v@.skip(pos as int));
            string_of(&s)
        },
        None => path.to_owned(),
    }
}

/// Convert each path to a relative path starting at `start`.
pub fn relativize_paths(leaf_nodes: Vec<String>, start: &str) -> (r: Vec<String>)
    ensures
        r.len() == leaf_nodes.len(),
        forall|i: int| 0 <= i < r.len() ==> (#[trigger] r@[i])@ == relativized(leaf_nodes@[i]@, start@),
{
    let mut r: Vec<String> = Vec::new();
    let mut i: usize = 0;
    while i < leaf_nodes.len()
        invariant
            i <= leaf_nodes.len(),
            r.len() == i,
            forall|j: int| 0 <= j < i ==> (#[trigger] r@[j])@ == relativized(leaf_nodes@[j]@, start@),
        decreases leaf_nodes.len() - i,
    {
        r.push(relativize_path(leaf_nodes[i].as_str(), start));
        i = i + 1;
    }
    r
}

/// A tree line with its path (from the first `/` on) relativized; the
/// indentation and tree characters before it are kept.
pub open spec fn relativized_line(line: Seq<char>, start: Seq<char>) -> Seq<char> {
    match find_char(line, '/') {
        Some(k) => line.take(k) + relativized(line.skip(k), start),
        None => line,
    }
}

/// A printed tree with every path relativized, each line ending in a
/// newline.
pub open spec fn relativized_tree(tree: Seq<char>, start: Seq<char>) -> Seq<char> {
    join(lines(tree).map_values(|l: Seq<char>| relativized_line(l, start)), seq!['\n']) + seq!['\n']
}

/// Relativize every path of a printed tree.
pub fn relativize_tree_str(tree_str: &str, start: &str) -> (r: String)
    ensures
        r@ == relativized_tree(tree_str@, start@),
{
    let ls = split_lines(&chars_of(tree_str));
    let ghost all = views(ls@);
    let mut out: Vec<Vec<char>> = Vec::new();
    let mut i: usize = 0;
    while i < ls.len()
        invariant
            i <= ls.len(),
            all == views(ls@),
            views(out@) == all.take(i as int).map_values(|l: Seq<char>| relativized_line(l, start@)),
        decreases ls.len() - i,
    {
        let line = &ls[i];
        let mapped = match find_char_from(line, '/', 0) {
            Some(k) => {
                proof {
                    crate::text::lemma_find_char_is(line@, '/', Some(k as int));
                }
                let prefix = slice(line, 0, k);
                let rest = string_of(&slice(line, k, line.len()));
                let rel = chars_of(relativize_path(rest.as_str(), start).as_str());
                assert(prefix@ =~= line@.take(k as int));
                assert(rest@ =~= line@.skip(k as int));
                concat(&prefix, &rel)
            },
            None => {
                proof {
                    crate::text::lemma_find_char_is(line@, '/', None);
                }
                crate::text::copy_vec(line)
            },
        };
        let ghost before = views(out@);
        out.push(mapped);
        proof {
            assert(views(out@) =~= before.push(mapped@));
            assert(all.take(i + 1) =~= all.take(i as int).push(all[i as int]));
            assert(all.take(i + 1).map_values(|l: Seq<char>| relativized_line(l, start@)) =~= all.take(i as int).map_values(|l: Seq<char>| relativized_line(l, start@)).push(relativized_line(all[i as int], start@)));
        }
        i = i + 1;
    }
    assert(all.take(i as int) =~= all);
    let mut joined = join_newline(&out);
    joined.push('\n');
    string_of(&joined)
}

/// The path exists and is a file: a missing path is `FileNotFound`, any
/// other non-file `InvalidFormat`.
pub fn ensure_file_exists<F: FileSystem>(fs: &F, path: &str) -> (r: Result<(), TreeError>)
    ensures
        r matches Err(TreeError::FileNotFound(p)) ==> p@ == path@,
        r matches Err(TreeError::InvalidFormat { path: p, .. }) ==> p@ == path@,
{
    if !fs.path_exists(path) {
        Err(TreeError::FileNotFound(path.to_owned()))
    } else if !fs.is_file(path) {
        Err(TreeError::InvalidFormat { path: path.to_owned(), reason: "Not a file".to_owned() })
    } else {
        Ok(())
    }
}

/// The path of `to` relative to `from`; an error naming `to` when none can
/// be computed.
pub fn get_relative_path(from: &str, to: &str) -> (r: Result<String, TreeError>)
    ensures
        match r {
            Ok(p) => spec_diff_paths(to@, from@) == Some(p@),
            Err(e) => spec_diff_paths(to@, from@) is None && (e matches TreeError::PathResolution { path, .. } && path@ == to@),
        },
{
    match diff_paths(to, from) {
        Some(p) => Ok(p),
        None => Err(TreeError::PathResolution { path: to.to_owned(), reason: "Could not compute relative path".to_owned() }),
    }
}

} // verus!
