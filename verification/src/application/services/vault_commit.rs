//! The rules of a vault commit: which staged files would leak plaintext
//! secrets, how the staged changes are read from git's output, and the
//! commit message that records the project's state.
use vstd::prelude::*;

use crate::application::envrc::context2;
use crate::application::error::{io_failed, ApplicationError};
use crate::application::hash::all_hex;
use crate::application::services::sops::SopsService;
use crate::application::services::swap::SwapService;
use crate::domain::entities::SwapState;
use crate::infrastructure::traits::{CommandRunner, FileSystem};
use crate::config::strs;
use crate::pathstr::{extension, extension_vec, opt_text, strip_prefix_str};
use crate::text::{
    chars_of, find_char, find_char_from, is_hex_digit_exec, lines, push_str, rfind_char,
    rfind_char_exec, slice, split, split_char, split_lines, string_of, trim, trim_vec, views,
};

verus! {

/// Options for a vault commit.
#[derive(Debug, Clone, Copy, PartialEq, Eq)]
pub struct CommitOptions {
    /// Use the generated commit message directly instead of opening the editor.
    pub auto: bool,
    /// Push the vault repo after a successful commit.
    pub push: bool,
    /// Skip re-encryption for this run.
    pub no_encrypt: bool,
}

/// A single staged change inside the vault.
#[derive(Debug)]
pub struct StagedChange {
    /// Git status letter (`M`, `A`, `D`, `R100`, …)
    pub status: String,
    /// Path relative to the vault directory
    pub path: String,
}

/// State of the project repo at the moment the vault content was captured.
#[derive(Debug)]
pub enum ProjectCommit {
    /// Project is a git repo with at least one commit.
    Commit { sha: String, branch: String, dirty: bool },
    /// Project is a git repo but HEAD is unborn.
    Unborn { branch: String },
    /// Project is not a git repo.
    NotARepo,
}

/// Result of a vault commit.
#[derive(Debug)]
pub struct CommitOutcome {
    /// Changes staged inside the vault
    pub staged: Vec<StagedChange>,
    /// Files re-encrypted before staging
    pub encrypted: Vec<String>,
    /// New commit SHA; `None` when there was nothing to commit or the editor aborted
    pub commit: Option<String>,
    /// Whether the vault repo was pushed
    pub pushed: bool,
    /// Project state recorded in the message
    pub project_commit: ProjectCommit,
}

/// The short hash of a commit: its first seven chars.
pub open spec fn spec_short(pc: ProjectCommit) -> Option<Seq<char>> {
    match pc {
        ProjectCommit::Commit { sha, .. } => Some(if sha@.len() < 7 { sha@ } else { sha@.take(7) }),
        _ => None,
    }
}

/// The `project-commit:` line body.
pub open spec fn spec_describe(pc: ProjectCommit) -> Seq<char> {
    match pc {
        ProjectCommit::Commit { sha, branch, dirty } => sha@ + " ("@ + branch@ + (if dirty {
            ", dirty)"@
        } else {
            ")"@
        }),
        ProjectCommit::Unborn { branch } => "(no commits yet on "@ + branch@ + ")"@,
        ProjectCommit::NotARepo => "(not a git repository)"@,
    }
}

impl ProjectCommit {
    /// Short hash for the commit subject, if there is one.
    pub fn short(&self) -> (r: Option<String>)
        ensures
            opt_text(r) == spec_short(*self),
    {
        match self {
            ProjectCommit::Commit { sha, .. } => {
                let v = chars_of(sha.as_str());
                let n = if v.len() < 7 { v.len() } else { 7 };
                let s = slice(&v, 0, n);
                assert(s@ =~= if sha@.len() < 7 { sha@ } else { sha@.take(7) });
                Some(string_of(&s))
            },
            _ => None,
        }
    }

    /// The `project-commit:` line body.
    pub fn describe(&self) -> (r: String)
        ensures
            r@ == spec_describe(*self),
    {
        match self {
            ProjectCommit::Commit { sha, branch, dirty } => {
                let mut v = chars_of(sha.as_str());
                push_str(&mut v, " (");
                push_str(&mut v, branch.as_str());
                if *dirty {
                    push_str(&mut v, ", dirty)");
                } else {
                    push_str(&mut v, ")");
                }
                string_of(&v)
            },
            ProjectCommit::Unborn { branch } => {
                let mut v = chars_of("(no commits yet on ");
                push_str(&mut v, branch.as_str());
                push_str(&mut v, ")");
                string_of(&v)
            },
            ProjectCommit::NotARepo => "(not a git repository)".to_owned(),
        }
    }
}

/// A sentinel id without its `-<8 hex>` suffix: `rsenv-1f53817c` → `rsenv`.
pub open spec fn display_name(sentinel_id: Seq<char>) -> Seq<char> {
    match rfind_char(sentinel_id, '-') {
        Some(i) => {
            let suffix = sentinel_id.skip(i + 1);
            if suffix.len() == 8 && all_hex(suffix) {
                sentinel_id.take(i)
            } else {
                sentinel_id
            }
        },
        None => sentinel_id,
    }
}

/// The display name of a sentinel id made of a name and an 8-hex-digit
/// suffix is the name.
pub proof fn lemma_display_name_strips_suffix(name: Seq<char>, suffix: Seq<char>)
    requires
        suffix.len() == 8,
        all_hex(suffix),
    ensures
        display_name(name + seq!['-'] + suffix) == name,
{
    let id = name + seq!['-'] + suffix;
    assert forall|j: int| 0 <= j < suffix.len() implies suffix[j] != '-' by {
        assert(crate::text::is_hex_digit(suffix[j]));
    }
    assert(id =~= name.push('-') + suffix);
    crate::text::lemma_rfind_char_append(name.push('-'), suffix, '-');
    crate::text::lemma_rfind_char_push(name, '-');
    assert(id.skip(name.len() + 1int) =~= suffix);
    assert(id.take(name.len() as int) =~= name);
}

/// Strip the `-<8 hex>` suffix from a sentinel id.
pub fn vault_display_name(sentinel_id: &str) -> (r: String)
    ensures
        r@ == display_name(sentinel_id@),
{
    let v = chars_of(sentinel_id);
    match rfind_char_exec(&v, '-') {
        Some(i) => {
            let suffix = slice(&v, i + 1, v.len());
            assert(suffix@ =~= v@.skip(i + 1));
            if suffix.len() == 8 {
                let mut k: usize = 0;
                while k < 8
                    invariant
                        k <= 8,
                        suffix.len() == 8,
                        v@ == sentinel_id@,
                        i < v.len(),
                        rfind_char(sentinel_id@, '-') == Some(i as int),
                        suffix@ == sentinel_id@.skip(i + 1),
                        forall|j: int| 0 <= j < k ==> crate::text::is_hex_digit(#[trigger] suffix@[j]),
                    decreases 8 - k,
                {
                    if !is_hex_digit_exec(suffix[k]) {
                        assert(!crate::text::is_hex_digit(suffix@[k as int]));
                        assert(!all_hex(suffix@));
                        return sentinel_id.to_owned();
                    }
                    k = k + 1;
                }
                let name = slice(&v, 0, i);
                assert(name@ =~= v@.take(i as int));
                string_of(&name)
            } else {
                sentinel_id.to_owned()
            }
        },
        None => sentinel_id.to_owned(),
    }
}

/// The first component of a relative path (`/` for an absolute one).
pub open spec fn first_component(p: Seq<char>) -> Seq<char> {
    if p.len() > 0 && p[0] == '/' {
        seq!['/']
    } else {
        split(p, '/')[0]
    }
}

/// A staged path that holds plaintext which belongs behind SOPS: not an
/// `.enc` file, and under `envs/` or `guarded/`, or the vault's `dot.envrc`.
pub open spec fn plaintext_secret(p: Seq<char>) -> bool {
    if extension(p) == Some("enc"@) {
        false
    } else {
        first_component(p) == "envs"@ || first_component(p) == "guarded"@ || p == "dot.envrc"@
    }
}

/// A staged path holds plaintext which belongs behind SOPS.
pub fn is_plaintext_secret(path: &str) -> (b: bool)
    ensures
        b == plaintext_secret(path@),
{
    let v = chars_of(path);
    match extension_vec(&v) {
        Some(e) => if crate::text::eq_str(&e, "enc") {
            return false;
        },
        None => {},
    }
    let first = if v.len() > 0 && v[0] == '/' {
        let r = vec!['/'];
        assert(r@ =~= seq!['/']);
        r
    } else {
        let parts = split_char(&v, '/');
        crate::text::copy_vec(&parts[0])
    };
    assert(first@ == first_component(path@));
    crate::text::eq_str(&first, "envs") || crate::text::eq_str(&first, "guarded") || crate::text::eq_str(&v, "dot.envrc")
}

/// The staged paths that would leak plaintext, in order.
pub open spec fn leaks(staged: Seq<StagedChange>) -> Seq<Seq<char>> {
    staged.map_values(|c: StagedChange| c.path@).filter(|p: Seq<char>| plaintext_secret(p))
}

/// Refuse to commit plaintext that belongs behind SOPS: an error naming
/// every such staged path, exactly when there is one.
pub fn reject_plaintext_secrets(staged: &[StagedChange]) -> (r: Result<(), ApplicationError>)
    ensures
        r is Ok <==> leaks(staged@).len() == 0,
        r matches Err(e) ==> e matches ApplicationError::UnencryptedVaultSecrets { paths } && strs(paths@) == leaks(staged@),
{
    let ghost ps = staged@.map_values(|c: StagedChange| c.path@);
    let ghost pred = |p: Seq<char>| plaintext_secret(p);
    let mut found: Vec<String> = Vec::new();
    let mut i: usize = 0;
    proof {
        reveal(Seq::filter);
        assert(ps.take(0) =~= Seq::<Seq<char>>::empty());
    }
    while i < staged.len()
        invariant
            i <= staged.len(),
            ps == staged@.map_values(|c: StagedChange| c.path@),
            pred == (|p: Seq<char>| plaintext_secret(p)),
            strs(found@) == ps.take(i as int).filter(pred),
        decreases staged.len() - i,
    {
        proof {
            reveal(Seq::filter);
            assert(ps.take(i + 1).drop_last() =~= ps.take(i as int));
            assert(ps.take(i + 1).last() == staged@[i as int].path@);
        }
        let ghost before = strs(found@);
        if is_plaintext_secret(staged[i].path.as_str()) {
            found.push(staged[i].path.clone());
            assert(strs(found@) =~= before.push(staged@[i as int].path@));
        }
        i = i + 1;
    }
    assert(ps.take(i as int) =~= ps);
    if found.len() == 0 {
        Ok(())
    } else {
        Err(ApplicationError::UnencryptedVaultSecrets { paths: found })
    }
}

/// The staged-change lines of a commit message.
pub open spec fn change_lines(staged: Seq<StagedChange>) -> Seq<char>
    decreases staged.len(),
{
    if staged.len() == 0 {
        seq![]
    } else {
        change_lines(staged.drop_last()) + " "@ + staged.last().status@ + " "@ + staged.last().path@ + "\n"@
    }
}

/// The commit message: a subject naming the vault (and the project's short
/// hash), the project directory, its commit state, and each staged change.
pub open spec fn spec_message(sentinel_id: Seq<char>, project_dir: Seq<char>, pc: ProjectCommit, staged: Seq<StagedChange>) -> Seq<char> {
    let name = display_name(sentinel_id);
    let subject = match spec_short(pc) {
        Some(s) => "vault("@ + name + "): checkpoint @ "@ + s,
        None => "vault("@ + name + "): checkpoint"@,
    };
    subject + "\n\nproject:        "@ + project_dir + "\nproject-commit: "@ + spec_describe(pc) + "\n\n"@
        + change_lines(staged)
}

/// The commit message for a vault commit.
pub fn build_message(sentinel_id: &str, project_dir: &str, project_commit: &ProjectCommit, staged: &[StagedChange]) -> (r: String)
    ensures
        r@ == spec_message(sentinel_id@, project_dir@, *project_commit, staged@),
{
    let name = vault_display_name(sentinel_id);
    let mut v = chars_of("vault(");
    push_str(&mut v, name.as_str());
    match project_commit.short() {
        Some(s) => {
            push_str(&mut v, "): checkpoint @ ");
            push_str(&mut v, s.as_str());
        },
        None => {
            push_str(&mut v, "): checkpoint");
        },
    }
    push_str(&mut v, "\n\nproject:        ");
    push_str(&mut v, project_dir);
    push_str(&mut v, "\nproject-commit: ");
    push_str(&mut v, project_commit.describe().as_str());
    push_str(&mut v, "\n\n");
    let ghost head = v@;
    let mut i: usize = 0;
    assert(staged@.take(0) =~= Seq::<StagedChange>::empty());
    while i < staged.len()
        invariant
            i <= staged.len(),
            v@ == head + change_lines(staged@.take(i as int)),
        decreases staged.len() - i,
    {
        push_str(&mut v, " ");
        push_str(&mut v, staged[i].status.as_str());
        push_str(&mut v, " ");
        push_str(&mut v, staged[i].path.as_str());
        push_str(&mut v, "\n");
        proof {
            assert(staged@.take(i + 1).drop_last() =~= staged@.take(i as int));
            assert(staged@.take(i + 1).last() == staged@[i as int]);
        }
        i = i + 1;
    }
    assert(staged@.take(i as int) =~= staged@);
    string_of(&v)
}

/// A line of `git diff --cached --name-status` as a staged change: its
/// first tab-separated field is the status, its last the path (the
/// destination of a rename); a line with a single field gives none.
pub open spec fn staged_of_line(l: Seq<char>) -> Option<(Seq<char>, Seq<char>)> {
    let fields = split(l, '\t');
    if fields.len() >= 2 {
        Some((fields[0], fields.last()))
    } else {
        None
    }
}

/// The staged changes in `git diff --cached --name-status` output, blank
/// lines skipped.
pub open spec fn staged_of_output(out: Seq<char>) -> Seq<(Seq<char>, Seq<char>)> {
    lines(out).filter(|l: Seq<char>| trim(l).len() > 0).filter_map(|l: Seq<char>| staged_of_line(l))
}

/// The texts of staged changes.
pub open spec fn changes_view(v: Seq<StagedChange>) -> Seq<(Seq<char>, Seq<char>)> {
    v.map_values(|c: StagedChange| (c.status@, c.path@))
}

/// The staged changes in `git diff --cached --name-status` output.
pub fn parse_staged_changes(out: &str) -> (r: Vec<StagedChange>)
    ensures
        changes_view(r@) == staged_of_output(out@),
{
    let ls = split_lines(&chars_of(out));
    let ghost all = views(ls@);
    let ghost nonblank = |l: Seq<char>| trim(l).len() > 0;
    let ghost conv = |l: Seq<char>| staged_of_line(l);
    let mut kept: Vec<Vec<char>> = Vec::new();
    let mut i: usize = 0;
    proof {
        reveal(Seq::filter);
        assert(all.take(0) =~= Seq::<Seq<char>>::empty());
    }
    while i < ls.len()
        invariant
            i <= ls.len(),
            all == views(ls@),
            nonblank == (|l: Seq<char>| trim(l).len() > 0),
            views(kept@) == all.take(i as int).filter(nonblank),
        decreases ls.len() - i,
    {
        proof {
            reveal(Seq::filter);
            assert(all.take(i + 1).drop_last() =~= all.take(i as int));
            assert(all.take(i + 1).last() == ls@[i as int]@);
        }
        let ghost before = views(kept@);
        if trim_vec(&ls[i]).len() > 0 {
            kept.push(crate::text::copy_vec(&ls[i]));
            assert(views(kept@) =~= before.push(ls@[i as int]@));
        }
        i = i + 1;
    }
    assert(all.take(i as int) =~= all);
    let ghost kv = views(kept@);
    let mut r: Vec<StagedChange> = Vec::new();
    let mut j: usize = 0;
    assert(kv.take(0) =~= Seq::<Seq<char>>::empty());
    while j < kept.len()
        invariant
            j <= kept.len(),
            kv == views(kept@),
            conv == (|l: Seq<char>| staged_of_line(l)),
            changes_view(r@) == kv.take(j as int).filter_map(conv),
        decreases kept.len() - j,
    {
        proof {
            assert(kv.take(j + 1).drop_last() =~= kv.take(j as int));
            assert(kv.take(j + 1).last() == kept@[j as int]@);
        }
        let fields = split_char(&kept[j], '\t');
        let ghost before = changes_view(r@);
        if fields.len() >= 2 {
            let status = string_of(&fields[0]);
            let path = string_of(&fields[fields.len() - 1]);
            r.push(StagedChange { status, path });
            assert(changes_view(r@) =~= before + seq![(views(fields@)[0], views(fields@).last())]);
        }
        j = j + 1;
    }
    assert(kv.take(j as int) =~= kv);
    r
}

// ------------------------------------------------------------------
// The commit
// ------------------------------------------------------------------

/// Commits a single project's vault data, as one commit scoped to the
/// vault's directory in the vaults' git repository.
pub struct VaultCommitService<F: FileSystem, C: CommandRunner> {
    /// Swap state of the project (and, through it, its vault).
    pub swap: SwapService<F>,
    /// Encryption of the vault; its command runner also runs git.
    pub sops: SopsService<F, C>,
    /// Re-encrypt the vault before staging.
    pub encrypt_on_commit: bool,
}

/// `texts` joined by single spaces.
fn words(texts: &[String]) -> (r: String)
    ensures
        r@ == crate::text::join(strs(texts@), " "@),
{
    let mut parts: Vec<Vec<char>> = Vec::new();
    let mut i: usize = 0;
    while i < texts.len()
        invariant
            i <= texts.len(),
            views(parts@) =~= strs(texts@).take(i as int),
        decreases texts.len() - i,
    {
        let ghost before = views(parts@);
        parts.push(chars_of(texts[i].as_str()));
        assert(views(parts@) =~= before.push(texts@[i as int]@));
        i = i + 1;
    }
    assert(strs(texts@).take(i as int) =~= strs(texts@));
    string_of(&crate::text::join_vec(&parts, &chars_of(" ")))
}

/// Owned copies of string slices.
fn owned(args: &[&str]) -> (r: Vec<String>)
    ensures
        r.len() == args.len(),
        forall|i: int| 0 <= i < args.len() ==> (#[trigger] r@[i])@ == args@[i]@,
{
    let mut r: Vec<String> = Vec::new();
    let mut i: usize = 0;
    while i < args.len()
        invariant
            i <= args.len(),
            r.len() == i,
            forall|k: int| 0 <= k < i ==> (#[trigger] r@[k])@ == args@[k]@,
        decreases args.len() - i,
    {
        r.push(args[i].to_owned());
        i = i + 1;
    }
    r
}

/// The arguments of `git -C <dir> <args…>`.
pub open spec fn git_args(dir: Seq<char>, args: Seq<Seq<char>>) -> Seq<Seq<char>> {
    seq!["-C"@, dir] + args
}

impl<F: FileSystem, C: CommandRunner> VaultCommitService<F, C> {
    /// Create a new vault commit service.
    pub fn new(swap: SwapService<F>, sops: SopsService<F, C>, encrypt_on_commit: bool) -> (r: Self)
        ensures
            r.swap == swap,
            r.sops == sops,
            r.encrypt_on_commit == encrypt_on_commit,
    {
        VaultCommitService { swap, sops, encrypt_on_commit }
    }

    /// Run `git -C <dir> <args>`: whether it succeeded, its output and its
    /// error output. Failing to start git is an error.
    fn git_raw(&self, dir: &str, args: &[String]) -> (r: Result<(bool, String, String), ApplicationError>)
        ensures
            r matches Err(e) ==> e is OperationFailed,
    {
        let mut full: Vec<String> = Vec::new();
        full.push("-C".to_owned());
        full.push(dir.to_owned());
        let mut i: usize = 0;
        while i < args.len()
            invariant
                i <= args.len(),
            decreases args.len() - i,
        {
            full.push(args[i].clone());
            i = i + 1;
        }
        match self.sops.cmd.run("git", full.as_slice()) {
            Ok(out) => Ok((out.success, out.stdout, out.stderr)),
            Err(e) => Err(io_failed(context2("run git ", words(args).as_str()), e)),
        }
    }

    /// Run `git -C <dir> <args>`, failing on a non-zero exit with the
    /// command and its trimmed error output.
    fn git(&self, dir: &str, args: &[String]) -> (r: Result<String, ApplicationError>)
        ensures
            r matches Err(e) ==> (e is OperationFailed || e is GitFailed),
    {
        let (ok, stdout, stderr) = match self.git_raw(dir, args) {
            Ok(x) => x,
            Err(e) => return Err(e),
        };
        if !ok {
            let err = string_of(&trim_vec(&chars_of(stderr.as_str())));
            return Err(ApplicationError::GitFailed { command: words(args), stderr: err });
        }
        Ok(stdout)
    }

    /// The current HEAD of a repository, or `None` when it has none.
    fn head(&self, dir: &str) -> (r: Option<String>) {
        match self.git_raw(dir, owned(&["rev-parse", "HEAD"]).as_slice()) {
            Ok((true, out, _)) => Some(string_of(&trim_vec(&chars_of(out.as_str())))),
            _ => None,
        }
    }

    /// The staged changes under the vault; `--relative` both scopes and
    /// shortens the paths.
    fn staged_changes(&self, vault_path: &str) -> (r: Result<Vec<StagedChange>, ApplicationError>) {
        let args = owned(&["diff", "--cached", "--name-status", "--relative"]);
        match self.git(vault_path, args.as_slice()) {
            Ok(out) => Ok(parse_staged_changes(out.as_str())),
            Err(e) => Err(e),
        }
    }

    /// The project's git state; a project without git is no error.
    fn probe_project(&self, project_dir: &str) -> (r: ProjectCommit) {
        let inside = match self.git_raw(project_dir, owned(&["rev-parse", "--is-inside-work-tree"]).as_slice()) {
            Ok((ok, _, _)) => ok,
            Err(_) => false,
        };
        if !inside {
            return ProjectCommit::NotARepo;
        }
        let branch = match self.git_raw(project_dir, owned(&["rev-parse", "--abbrev-ref", "HEAD"]).as_slice()) {
            Ok((_, out, _)) => string_of(&trim_vec(&chars_of(out.as_str()))),
            Err(_) => String::new(),
        };
        match self.git_raw(project_dir, owned(&["rev-parse", "HEAD"]).as_slice()) {
            Ok((true, sha, _)) => {
                let dirty = match self.git_raw(project_dir, owned(&["status", "--porcelain"]).as_slice()) {
                    Ok((_, out, _)) => trim_vec(&chars_of(out.as_str())).len() > 0,
                    Err(_) => false,
                };
                ProjectCommit::Commit { sha: string_of(&trim_vec(&chars_of(sha.as_str()))), branch, dirty }
            },
            _ => ProjectCommit::Unborn { branch },
        }
    }

    /// `git commit -e` hands the terminal to the editor; an editor that
    /// aborts the commit is a normal outcome, told apart by HEAD.
    fn commit_interactive(&self, vault_path: &str, message: &str) -> (r: Result<(), ApplicationError>) {
        let mut args = owned(&["-C"]);
        args.push(vault_path.to_owned());
        args.push("commit".to_owned());
        args.push("-e".to_owned());
        args.push("-m".to_owned());
        args.push(message.to_owned());
        args.push("--".to_owned());
        args.push(".".to_owned());
        match self.sops.cmd.run_interactive("git", args.as_slice()) {
            Ok(_) => Ok(()),
            Err(e) => Err(io_failed("run git commit -e".to_owned(), e)),
        }
    }

    /// Refuse unless everything this host swapped in has been swapped out
    /// again: the error names each such file, relative to the project.
    fn require_swapped_out(&self, project_dir: &str) -> (r: Result<(), ApplicationError>) {
        let still_in = match self.swap.swapped_in_here(project_dir) {
            Ok(v) => v,
            Err(e) => return Err(e),
        };
        if still_in.len() == 0 {
            return Ok(());
        }
        let mut paths: Vec<String> = Vec::new();
        let mut i: usize = 0;
        while i < still_in.len()
            invariant
                i <= still_in.len(),
                paths.len() == i,
            decreases still_in.len() - i,
        {
            let p = &still_in[i].project_path;
            let shown = match strip_prefix_str(p.as_str(), project_dir) {
                Some(rel) => rel,
                None => p.clone(),
            };
            paths.push(shown);
            i = i + 1;
        }
        Err(ApplicationError::ProjectSwappedIn { paths })
    }

    /// Commit this project's vault data: refuse while files are swapped in,
    /// re-encrypt when configured, stage the vault, refuse to commit
    /// plaintext secrets, and commit the vault's directory alone with a
    /// message recording the project's state; push when asked.
    pub fn commit(&self, project_dir: &str, opts: &CommitOptions) -> (r: Result<CommitOutcome, ApplicationError>)
        ensures
            r matches Ok(o) ==> {
                &&& leaks(o.staged@).len() == 0
                &&& o.staged.len() == 0 ==> o.commit is None
                &&& o.pushed ==> opts.push && o.commit is Some
                &&& (!self.encrypt_on_commit || opts.no_encrypt) ==> o.encrypted.len() == 0
            },
    {
        let vault = match self.swap.vault_service.get(project_dir) {
            Ok(Some(v)) => v,
            Ok(None) => return Err(ApplicationError::VaultNotInitialized(project_dir.to_owned())),
            Err(e) => return Err(e),
        };
        let vault_path = vault.path.clone();
        match self.require_swapped_out(project_dir) {
            Ok(()) => {},
            Err(e) => return Err(e),
        }
        let project_commit = self.probe_project(project_dir);
        let encrypted = if self.encrypt_on_commit && !opts.no_encrypt {
            match self.sops.encrypt_all(Some(vault_path.as_str())) {
                Ok(v) => v,
                Err(e) => return Err(e),
            }
        } else {
            Vec::new()
        };
        match self.git(vault_path.as_str(), owned(&["add", "-A", "."]).as_slice()) {
            Ok(_) => {},
            Err(e) => return Err(e),
        }
        let staged = match self.staged_changes(vault_path.as_str()) {
            Ok(s) => s,
            Err(e) => return Err(e),
        };
        match reject_plaintext_secrets(staged.as_slice()) {
            Ok(()) => {},
            Err(e) => return Err(e),
        }
        if staged.len() == 0 {
            return Ok(CommitOutcome { staged, encrypted, commit: None, pushed: false, project_commit });
        }
        let message = build_message(vault.sentinel_id.as_str(), project_dir, &project_commit, staged.as_slice());
        let head_before = self.head(vault_path.as_str());
        if opts.auto {
            let mut args = owned(&["commit", "-m"]);
            args.push(message.clone());
            args.push("--".to_owned());
            args.push(".".to_owned());
            match self.git(vault_path.as_str(), args.as_slice()) {
                Ok(_) => {},
                Err(e) => return Err(e),
            }
        } else {
            match self.commit_interactive(vault_path.as_str(), message.as_str()) {
                Ok(()) => {},
                Err(e) => return Err(e),
            }
        }
        let head_after = self.head(vault_path.as_str());
        let commit = match head_after {
            Some(sha) => {
                let same = match &head_before {
                    Some(b) => *b == sha,
                    None => false,
                };
                if same {
                    return Ok(CommitOutcome { staged, encrypted, commit: None, pushed: false, project_commit });
                }
                sha
            },
            None => return Ok(CommitOutcome { staged, encrypted, commit: None, pushed: false, project_commit }),
        };
        let mut pushed = false;
        if opts.push {
            match self.git(vault_path.as_str(), owned(&["push"]).as_slice()) {
                Ok(_) => {},
                Err(e) => return Err(e),
            }
            pushed = true;
        }
        Ok(CommitOutcome { staged, encrypted, commit: Some(commit), pushed, project_commit })
    }
}

} // verus!
