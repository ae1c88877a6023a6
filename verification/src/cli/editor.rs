//! Editor resolution for the vim-driven env commands.
use vstd::prelude::*;

use crate::pathstr::{file_stem, file_stem_vec};
use crate::text::{ascii_lower_seq, ascii_lower_vec, chars_of, contains, contains_vec, eq_str};

verus! {

/// The editor understands vim's command line: its program name, lower-cased
/// and without extension, is `vi`, `view`, or contains `vim`.
pub open spec fn vim_family(editor: Seq<char>) -> bool {
    let stem = ascii_lower_seq(
        match file_stem(editor) {
            Some(s) => s,
            None => seq![],
        },
    );
    stem == "vi"@ || stem == "view"@ || contains(stem, "vim"@)
}

/// Does this editor command understand vim's command line?
///
/// `env edit-leaf` and `env tree-edit` drive the editor with vim-only flags
/// (`-O` for the split grid, `-S` to source a generated vimscript), so any
/// other editor is refused.
pub fn is_vim_family(editor: &str) -> (b: bool)
    ensures
        b == vim_family(editor@),
{
    let stem = match file_stem_vec(&chars_of(editor)) {
        Some(s) => s,
        None => Vec::new(),
    };
    let lower = ascii_lower_vec(&stem);
    eq_str(&lower, "vi") || eq_str(&lower, "view") || contains_vec(&lower, &chars_of("vim"))
}

} // verus!
