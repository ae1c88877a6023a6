//! The pre-commit hook that keeps unencrypted files out of a vault's git
//! repository: its text, and when it may be installed or removed.
use vstd::prelude::*;

use crate::application::envrc::context2;
use crate::cli::error::CliError;
use crate::text::{chars_of, contains, contains_vec};

verus! {

/// The hook installed into `.git/hooks/pre-commit`.
pub const PRE_COMMIT_HOOK: &'static str = "#!/bin/bash
# rsenv pre-commit hook - prevents committing with stale/unencrypted files
# Installed by: rsenv hook install

VAULT_DIR=\"$(git rev-parse --show-toplevel)\"

if ! command -v rsenv &> /dev/null; then
    echo \"Warning: rsenv not found in PATH, skipping encryption check\"
    exit 0
fi

if ! rsenv sops status --check --dir \"$VAULT_DIR\" 2>/dev/null; then
    echo \"\"
    echo \"ERROR: Unencrypted or stale files in vault.\"
    echo \"       Run 'rsenv sops encrypt' to update encryption.\"
    echo \"       Use 'rsenv sops status' to see details.\"
    echo \"\"
    exit 1
fi
";

/// The words by which rsenv recognises its own hook.
pub const HOOK_SIGNATURE: &'static str = "rsenv pre-commit hook";

/// A hook's text is rsenv's own.
pub fn is_rsenv_hook(content: &str) -> (b: bool)
    ensures
        b == contains(content@, HOOK_SIGNATURE@),
{
    contains_vec(&chars_of(content), &chars_of(HOOK_SIGNATURE))
}

/// Whether the hook may be installed: the target must be a git repository,
/// and an existing hook is only overwritten with `force`.
pub fn check_install(repo_dir: &str, is_git_repo: bool, hook_path: &str, hook_exists: bool, force: bool) -> (r: Result<(), CliError>)
    ensures
        r is Ok <==> (is_git_repo && (!hook_exists || force)),
        r matches Err(e) ==> e is Usage,
{
    if !is_git_repo {
        return Err(CliError::Usage(context2("Vault is not a git repository: ", repo_dir)));
    }
    if hook_exists && !force {
        let m = context2("Pre-commit hook already exists: ", hook_path);
        return Err(CliError::Usage(context2(m.as_str(), "\nUse --force to overwrite.")));
    }
    Ok(())
}

/// What removing the hook does with the hook file found: nothing without
/// one (`Ok(false)`), delete rsenv's own (`Ok(true)`), refuse another's.
pub fn check_remove(hook_path: &str, hook_content: Option<&str>) -> (r: Result<bool, CliError>)
    ensures
        match hook_content {
            None => r == Ok::<bool, CliError>(false),
            Some(c) => if contains(c@, HOOK_SIGNATURE@) {
                r == Ok::<bool, CliError>(true)
            } else {
                r matches Err(CliError::Usage(_))
            },
        },
{
    match hook_content {
        None => Ok(false),
        Some(c) => {
            if is_rsenv_hook(c) {
                Ok(true)
            } else {
                Err(CliError::Usage(context2("Pre-commit hook exists but was not installed by rsenv: ", hook_path)))
            }
        },
    }
}

} // verus!
