//! The vimscript that lays env files out as columns of splits, and where
//! the sops commands work.
use vstd::prelude::*;

use crate::cli::error::CliError;
use crate::text::{chars_of, push_str, string_of};

verus! {

/// `split <file>` lines for each file.
pub open spec fn split_lines_for(files: Seq<Seq<char>>) -> Seq<char>
    decreases files.len(),
{
    if files.len() == 0 {
        seq![]
    } else {
        split_lines_for(files.drop_last()) + "split "@ + files.last() + "\n"@
    }
}

/// The commands for one column: the first file opened (`edit` in the first
/// column, else `split` and a move to the right), the rest split below it.
pub open spec fn column_script(idx: int, col: Seq<Seq<char>>) -> Seq<char> {
    if col.len() == 0 {
        seq![]
    } else {
        (if idx == 0 {
            "edit "@ + col[0] + "\n"@
        } else {
            "split "@ + col[0] + "\n"@ + "wincmd L\n"@
        }) + split_lines_for(col.skip(1))
    }
}

/// The commands for all columns, in order.
pub open spec fn columns_script(cols: Seq<Seq<Seq<char>>>) -> Seq<char>
    decreases cols.len(),
{
    if cols.len() == 0 {
        seq![]
    } else {
        columns_script(cols.drop_last()) + column_script(cols.len() - 1, cols.last())
    }
}

/// The texts of columns of paths.
pub open spec fn columns_view(branches: Seq<Vec<String>>) -> Seq<Seq<Seq<char>>> {
    branches.map_values(|col: Vec<String>| crate::config::strs(col@))
}

/// The whole script: the columns, then equal window sizes and the cursor
/// in the top-left window.
pub open spec fn spec_vimscript(cols: Seq<Seq<Seq<char>>>) -> Seq<char> {
    columns_script(cols) + "\nwincmd =\n"@ + "1wincmd w\n"@
}

/// The vimscript opening `branches` as columns of horizontal splits.
pub fn create_vimscript(branches: &Vec<Vec<String>>) -> (r: String)
    ensures
        r@ == spec_vimscript(columns_view(branches@)),
{
    let ghost cols = columns_view(branches@);
    let mut script: Vec<char> = Vec::new();
    let mut c: usize = 0;
    assert(cols.take(0) =~= Seq::<Seq<Seq<char>>>::empty());
    while c < branches.len()
        invariant
            c <= branches.len(),
            cols == columns_view(branches@),
            script@ == columns_script(cols.take(c as int)),
        decreases branches.len() - c,
    {
        let col = &branches[c];
        let ghost colv = cols[c as int];
        assert(colv == crate::config::strs(col@));
        let ghost before = script@;
        if col.len() > 0 {
            if c == 0 {
                push_str(&mut script, "edit ");
                push_str(&mut script, col[0].as_str());
                push_str(&mut script, "\n");
            } else {
                push_str(&mut script, "split ");
                push_str(&mut script, col[0].as_str());
                push_str(&mut script, "\n");
                push_str(&mut script, "wincmd L\n");
            }
            let ghost head = script@;
            let mut k: usize = 1;
            assert(colv.skip(1).take(0) =~= Seq::<Seq<char>>::empty());
            while k < col.len()
                invariant
                    1 <= k <= col.len(),
                    colv == crate::config::strs(col@),
                    script@ == head + split_lines_for(colv.skip(1).take(k - 1)),
                decreases col.len() - k,
            {
                push_str(&mut script, "split ");
                push_str(&mut script, col[k].as_str());
                push_str(&mut script, "\n");
                proof {
                    assert(colv.skip(1).take(k as int).drop_last() =~= colv.skip(1).take(k - 1));
                    assert(colv.skip(1).take(k as int).last() == col@[k as int]@);
                }
                k = k + 1;
            }
            assert(colv.skip(1).take(k - 1) =~= colv.skip(1));
            assert(script@ =~= before + column_script(c as int, colv));
        } else {
            assert(script@ =~= before + column_script(c as int, colv));
        }
        proof {
            assert(cols.take(c + 1).drop_last() =~= cols.take(c as int));
            assert(cols.take(c + 1).last() == colv);
        }
        c = c + 1;
    }
    assert(cols.take(c as int) =~= cols);
    push_str(&mut script, "\nwincmd =\n");
    push_str(&mut script, "1wincmd w\n");
    string_of(&script)
}

/// Where the sops commands work: all vaults with `global`, else the given
/// directory, else the project's vault; without any of these, a usage
/// error.
pub fn resolve_sops_dir(dir: Option<String>, global: bool, vault_path: Option<&str>, vault_base_dir: &str) -> (r: Result<String, CliError>)
    ensures
        global ==> (r matches Ok(d) && d@ == vault_base_dir@),
        !global && dir is Some ==> (r matches Ok(d) && d@ == dir->0@),
        !global && dir is None && vault_path is Some ==> (r matches Ok(d) && d@ == vault_path->0@),
        !global && dir is None && vault_path is None ==> r matches Err(CliError::Usage(_)),
{
    if global {
        Ok(vault_base_dir.to_owned())
    } else if let Some(d) = dir {
        Ok(d)
    } else if let Some(v) = vault_path {
        Ok(v.to_owned())
    } else {
        Err(CliError::Usage("No vault found. Run 'rsenv init' first, or use --dir or --global.".to_owned()))
    }
}

} // verus!
