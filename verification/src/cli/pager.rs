//! Choosing the pager for diff output, as `git diff` does.
use vstd::prelude::*;

use crate::pathstr::opt_text;
use crate::text::{chars_of, eq_str, string_of, trim, trim_vec};

verus! {

/// The pager command from what `git var GIT_PAGER` reported, trimmed; none
/// when nothing was reported, the command is empty, or it is `cat` (git's
/// idiom for "paging disabled").
pub open spec fn spec_resolve_pager(raw: Option<Seq<char>>) -> Option<Seq<char>> {
    match raw {
        Some(r) => {
            let cmd = trim(r);
            if cmd.len() == 0 || cmd == "cat"@ {
                None
            } else {
                Some(cmd)
            }
        },
        None => None,
    }
}

/// Decide the pager command from what `git var GIT_PAGER` reported.
pub fn resolve_pager(raw: Option<String>) -> (r: Option<String>)
    ensures
        opt_text(r) == spec_resolve_pager(opt_text(raw)),
{
    let raw = match raw {
        Some(r) => r,
        None => return None,
    };
    let cmd = trim_vec(&chars_of(raw.as_str()));
    if cmd.len() == 0 || eq_str(&cmd, "cat") {
        return None;
    }
    Some(string_of(&cmd))
}

/// The kinds of I/O error the pager tells apart.
#[derive(Debug, Clone, Copy, PartialEq, Eq)]
pub enum PipeErrorKind {
    BrokenPipe,
    Other,
}

/// Whether an I/O error's kind (`std::io::Error::kind`) is
/// `ErrorKind::BrokenPipe`; the kind is fixed by the error value.
pub uninterp spec fn is_broken_pipe(e: std::io::Error) -> bool;

/// `std::io::Error::kind`, told apart as a broken pipe or another kind: the
/// result names whether the error's kind is `BrokenPipe`.
#[verifier::external_body]
fn pipe_error_kind(e: &std::io::Error) -> (k: PipeErrorKind)
    ensures
        (k == PipeErrorKind::BrokenPipe) == is_broken_pipe(*e),
{
    match e.kind() {
        std::io::ErrorKind::BrokenPipe => PipeErrorKind::BrokenPipe,
        _ => PipeErrorKind::Other,
    }
}

/// Quitting the pager early closes the pipe mid-write, a normal user
/// action: a broken pipe is swallowed, every other error kept.
pub fn ignore_broken_pipe(result: Result<(), std::io::Error>) -> (r: Result<(), std::io::Error>)
    ensures
        r is Ok <==> (result is Ok || (result matches Err(e0) && is_broken_pipe(e0))),
        r matches Err(e) ==> result matches Err(e0) && e == e0,
{
    match result {
        Ok(()) => Ok(()),
        Err(e) => match pipe_error_kind(&e) {
            PipeErrorKind::BrokenPipe => Ok(()),
            PipeErrorKind::Other => Err(e),
        },
    }
}

} // verus!
