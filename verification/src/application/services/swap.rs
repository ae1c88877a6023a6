//! File swap-in/swap-out between a project and its vault.
//!
//! Swapped out (the normal state), the project holds its original file and
//! the vault's `swap/` tree the override. Swapped in, the override has moved
//! into the project; the vault holds a sentinel copy named after the host
//! (`<name>.<host>.rsenv_active`) and the original as
//! `<name>.rsenv_original`. `.gitignore` files kept in the vault are renamed
//! `.gitignore.rsenv-disabled` so that they do not act on the vault.
use vstd::prelude::*;

use crate::application::envrc::{add_swapped_marker, context2, remove_swapped_marker};
use crate::application::error::{detected, io_failed, ApplicationError, IoKind};
use crate::application::services::vault::VaultService;
use crate::domain::entities::{SwapFile, SwapState};
use crate::infrastructure::traits::FileSystem;
use crate::infrastructure::walk::walk_dir;
use crate::pathstr::{
    file_name, file_name_str, has_file_name, join, join_str, opt_text, parent, parent_str,
    strip_prefix, strip_prefix_str, with_file_name, with_file_name_str,
};
use crate::text::{
    chars_of, ends_with, ends_with_str, push_str, rfind_char, rfind_char_exec, slice, starts_with,
    starts_with_vec, string_of,
};

verus! {

/// Suffix that neutralises a `.gitignore` kept in the vault.
pub const GITIGNORE_DISABLED_SUFFIX: &'static str = ".rsenv-disabled";

/// Name a neutralised `.gitignore` has in the vault.
pub const GITIGNORE_DISABLED_NAME: &'static str = ".gitignore.rsenv-disabled";

/// Suffix of a sentinel (after the host name).
pub const ACTIVE_SUFFIX: &'static str = ".rsenv_active";

/// Suffix of the backed-up original.
pub const ORIGINAL_SUFFIX: &'static str = ".rsenv_original";

// ------------------------------------------------------------------
// Names in the vault
// ------------------------------------------------------------------

/// The file name of a path, or the empty text.
pub open spec fn name_or_empty(p: Seq<char>) -> Seq<char> {
    match file_name(p) {
        Some(n) => n,
        None => seq![],
    }
}

/// The directory in the vault that holds the entry for `relative`.
pub open spec fn entry_dir(swap_dir: Seq<char>, relative: Seq<char>) -> Seq<char> {
    match parent(join(swap_dir, relative)) {
        Some(d) => d,
        None => swap_dir,
    }
}

/// `vault/swap/<rel_path>.<hostname>.rsenv_active`.
pub open spec fn spec_sentinel_path(swap_dir: Seq<char>, relative: Seq<char>, hostname: Seq<char>) -> Seq<char> {
    join(entry_dir(swap_dir, relative), name_or_empty(relative) + seq!['.'] + hostname + ACTIVE_SUFFIX@)
}

/// `vault/swap/<rel_path>.rsenv_original`.
pub open spec fn spec_backup_path(swap_dir: Seq<char>, relative: Seq<char>) -> Seq<char> {
    join(entry_dir(swap_dir, relative), name_or_empty(relative) + ORIGINAL_SUFFIX@)
}

/// The host named by a sentinel `<base_name>.<host>.rsenv_active`; the host
/// must not be empty.
pub open spec fn spec_sentinel_host(name: Seq<char>, base_name: Seq<char>) -> Option<Seq<char>> {
    let prefix = base_name + seq!['.'];
    if ends_with(name, ACTIVE_SUFFIX@) && starts_with(name, prefix) && name.len() > prefix.len()
        + ACTIVE_SUFFIX@.len() {
        Some(name.subrange(prefix.len() as int, name.len() - ACTIVE_SUFFIX@.len()))
    } else {
        None
    }
}

/// The file a sentinel name stands for: the text before its last two dots.
pub open spec fn spec_sentinel_base(name: Seq<char>) -> Option<Seq<char>> {
    match rfind_char(name, '.') {
        Some(last) => match rfind_char(name.take(last), '.') {
            Some(b) => Some(name.take(b)),
            None => None,
        },
        None => None,
    }
}

/// The name marks a sentinel or a backup, which are moved as a whole.
pub open spec fn is_special_name(p: Seq<char>) -> bool {
    match file_name(p) {
        Some(n) => ends_with(n, ACTIVE_SUFFIX@) || ends_with(n, ORIGINAL_SUFFIX@),
        None => false,
    }
}

/// Some directory above `p` is a sentinel or a backup.
pub open spec fn under_special_dir(p: Seq<char>) -> bool
    decreases p.len(),
{
    match parent(p) {
        Some(d) => if d.len() < p.len() {
            is_special_name(d) || under_special_dir(d)
        } else {
            false
        },
        None => false,
    }
}

/// `vault/swap/<rel_path>.<hostname>.rsenv_active`.
pub fn get_sentinel_path(swap_dir: &str, relative: &str, hostname: &str) -> (r: String)
    ensures
        r@ == spec_sentinel_path(swap_dir@, relative@, hostname@),
{
    let joined = join_str(swap_dir, relative);
    let dir = match parent_str(joined.as_str()) {
        Some(d) => d,
        None => swap_dir.to_owned(),
    };
    let mut name = match file_name_str(relative) {
        Some(n) => chars_of(n.as_str()),
        None => Vec::new(),
    };
    name.push('.');
    push_str(&mut name, hostname);
    push_str(&mut name, ACTIVE_SUFFIX);
    assert(name@ =~= name_or_empty(relative@) + seq!['.'] + hostname@ + ACTIVE_SUFFIX@);
    join_str(dir.as_str(), string_of(&name).as_str())
}

/// `vault/swap/<rel_path>.rsenv_original`.
pub fn get_backup_path(swap_dir: &str, relative: &str) -> (r: String)
    ensures
        r@ == spec_backup_path(swap_dir@, relative@),
{
    let joined = join_str(swap_dir, relative);
    let dir = match parent_str(joined.as_str()) {
        Some(d) => d,
        None => swap_dir.to_owned(),
    };
    let mut name = match file_name_str(relative) {
        Some(n) => chars_of(n.as_str()),
        None => Vec::new(),
    };
    push_str(&mut name, ORIGINAL_SUFFIX);
    assert(name@ =~= name_or_empty(relative@) + ORIGINAL_SUFFIX@);
    join_str(dir.as_str(), string_of(&name).as_str())
}

/// The host named by a sentinel of `base_name`, if `name` is one.
pub fn sentinel_host(name: &str, base_name: &str) -> (r: Option<String>)
    ensures
        opt_text(r) == spec_sentinel_host(name@, base_name@),
{
    let nv = chars_of(name);
    let mut prefix = chars_of(base_name);
    prefix.push('.');
    assert(prefix@ =~= base_name@ + seq!['.']);
    let suffix = chars_of(ACTIVE_SUFFIX);
    if ends_with_str(&nv, ACTIVE_SUFFIX) && starts_with_vec(&nv, &prefix) && nv.len() - prefix.len()
        > suffix.len() {
        Some(string_of(&slice(&nv, prefix.len(), nv.len() - suffix.len())))
    } else {
        None
    }
}

/// The file a sentinel name stands for.
pub fn sentinel_base(name: &str) -> (r: Option<String>)
    ensures
        opt_text(r) == spec_sentinel_base(name@),
{
    let nv = chars_of(name);
    match rfind_char_exec(&nv, '.') {
        Some(last) => {
            let head = slice(&nv, 0, last);
            assert(head@ =~= nv@.take(last as int));
            match rfind_char_exec(&head, '.') {
                Some(b) => {
                    let base = slice(&nv, 0, b);
                    assert(base@ =~= nv@.take(b as int));
                    Some(string_of(&base))
                },
                None => None,
            }
        },
        None => None,
    }
}

fn is_special_name_exec(p: &str) -> (b: bool)
    ensures
        b == is_special_name(p@),
{
    match file_name_str(p) {
        Some(n) => {
            let nv = chars_of(n.as_str());
            ends_with_str(&nv, ACTIVE_SUFFIX) || ends_with_str(&nv, ORIGINAL_SUFFIX)
        },
        None => false,
    }
}

/// Some directory above `p` is a sentinel or a backup.
pub fn is_inside_special_dir(p: &str) -> (b: bool)
    ensures
        b == under_special_dir(p@),
{
    let mut cur = p.to_owned();
    loop
        invariant
            under_special_dir(p@) == under_special_dir(cur@),
        decreases cur@.len(),
    {
        let d = match parent_str(cur.as_str()) {
            Some(d) => d,
            None => return false,
        };
        proof {
            crate::pathstr::lemma_parent_prefix(cur@);
        }
        if is_special_name_exec(d.as_str()) {
            return true;
        }
        cur = d;
    }
}

/// `hostname::get()`: the name of this machine. It depends on the machine:
/// nothing is stated of it.
#[verifier::external_body]
fn host_name() -> (r: Result<String, std::io::Error>) {
    hostname::get().map(|h| h.to_string_lossy().into_owned())
}

/// The sentinel a host leaves for a file names that host again.
pub proof fn lemma_sentinel_names_host(base_name: Seq<char>, host: Seq<char>)
    requires
        host.len() > 0,
    ensures
        spec_sentinel_host(base_name + seq!['.'] + host + ACTIVE_SUFFIX@, base_name) == Some(host),
{
    let name = base_name + seq!['.'] + host + ACTIVE_SUFFIX@;
    let prefix = base_name + seq!['.'];
    assert(name.subrange(name.len() - ACTIVE_SUFFIX@.len(), name.len() as int) =~= ACTIVE_SUFFIX@);
    assert(name.subrange(0, prefix.len() as int) =~= prefix);
    assert(name.subrange(prefix.len() as int, name.len() - ACTIVE_SUFFIX@.len()) =~= host);
}

/// The sentinel a host leaves for a file stands for that file again, when
/// the host name holds no dot.
pub proof fn lemma_sentinel_names_file(base_name: Seq<char>, host: Seq<char>)
    requires
        forall|j: int| 0 <= j < host.len() ==> host[j] != '.',
    ensures
        spec_sentinel_base(base_name + seq!['.'] + host + ACTIVE_SUFFIX@) == Some(base_name),
{
    reveal_strlit(".rsenv_active");
    let head = base_name + seq!['.'] + host;
    let name = head + ACTIVE_SUFFIX@;
    let tail = ACTIVE_SUFFIX@.drop_first();
    assert(ACTIVE_SUFFIX@ =~= seq!['.'] + tail);
    assert forall|j: int| 0 <= j < tail.len() implies tail[j] != '.' by {}
    assert(name =~= head.push('.') + tail);
    crate::text::lemma_rfind_char_append(head.push('.'), tail, '.');
    crate::text::lemma_rfind_char_push(head, '.');
    assert(name.take(head.len() as int) =~= head);
    assert(head =~= base_name.push('.') + host);
    crate::text::lemma_rfind_char_append(base_name.push('.'), host, '.');
    crate::text::lemma_rfind_char_push(base_name, '.');
    assert(head.take(base_name.len() as int) =~= base_name);
}

/// The state is swapped in by host `h`.
pub open spec fn in_on(s: SwapState, h: Seq<char>) -> bool {
    s matches SwapState::In { hostname } && hostname@ == h
}

/// All swapped files are swapped in by host `h`.
pub open spec fn all_in_on(v: Seq<SwapFile>, h: Seq<char>) -> bool {
    forall|i: int| 0 <= i < v.len() ==> in_on((#[trigger] v[i]).state, h)
}

/// All swapped files are swapped in by one host.
pub open spec fn all_in_on_some_host(v: Seq<SwapFile>) -> bool {
    exists|h: Seq<char>| #[trigger] all_in_on(v, h)
}

/// All swapped files are swapped out.
pub open spec fn all_out(v: Seq<SwapFile>) -> bool {
    forall|i: int| 0 <= i < v.len() ==> (#[trigger] v[i]).state is Out
}

/// The project paths of the swapped-in entries, in order.
pub open spec fn in_paths(s: Seq<SwapFile>) -> Seq<Seq<char>>
    decreases s.len(),
{
    if s.len() == 0 {
        seq![]
    } else {
        let rest = in_paths(s.drop_last());
        match s.last().state {
            SwapState::In { .. } => rest.push(s.last().project_path@),
            SwapState::Out => rest,
        }
    }
}

/// The texts of a list of strings.
pub open spec fn texts(v: Seq<String>) -> Seq<Seq<char>> {
    v.map_values(|x: String| x@)
}

/// The project paths of the files in `status` that are swapped in.
pub fn swapped_in_paths(status: &Vec<SwapFile>) -> (r: Vec<String>)
    ensures
        texts(r@) == in_paths(status@),
{
    let mut r: Vec<String> = Vec::new();
    let mut j: usize = 0;
    while j < status.len()
        invariant
            j <= status.len(),
            texts(r@) == in_paths(status@.take(j as int)),
        decreases status.len() - j,
    {
        assert(status@.take(j + 1).drop_last() =~= status@.take(j as int));
        let ghost before = r@;
        if let SwapState::In { .. } = status[j].state {
            r.push(status[j].project_path.clone());
            assert(texts(r@) =~= texts(before).push(status@[j as int].project_path@));
        }
        j = j + 1;
    }
    assert(status@.take(j as int) =~= status@);
    r
}

// ------------------------------------------------------------------
// Per-file decisions
// ------------------------------------------------------------------

/// What swapping in does with one file.
#[derive(Debug, Clone, Copy, PartialEq, Eq, Structural)]
pub enum SwapInStep {
    /// This host has it swapped in already: passed over.
    AlreadyIn,
    /// Another host has it swapped in: the run stops.
    OtherHost,
    /// The vault holds no override for it: the run stops.
    NoOverride,
    /// The override holds a `.gitignore` that is not neutralised: the run
    /// stops.
    BareGitignore,
    /// The override moves into the project.
    Move,
}

/// The swap-in decision for one file, from the host of its sentinel (if
/// any), this host, whether the vault has an override, and whether that
/// override holds a bare `.gitignore`.
pub open spec fn spec_swap_in_step(sentinel_host: Option<Seq<char>>, host: Seq<char>, override_exists: bool, bare: bool) -> SwapInStep {
    match sentinel_host {
        Some(h) => if h == host {
            SwapInStep::AlreadyIn
        } else {
            SwapInStep::OtherHost
        },
        None => if !override_exists {
            SwapInStep::NoOverride
        } else if bare {
            SwapInStep::BareGitignore
        } else {
            SwapInStep::Move
        },
    }
}

/// The swap-in decision for one file.
pub fn swap_in_step(sentinel_host: &Option<String>, host: &str, override_exists: bool, bare: bool) -> (s: SwapInStep)
    ensures
        s == spec_swap_in_step(opt_text(*sentinel_host), host@, override_exists, bare),
{
    match sentinel_host {
        Some(h) => if crate::text::eq_str(&chars_of(h.as_str()), host) {
            SwapInStep::AlreadyIn
        } else {
            SwapInStep::OtherHost
        },
        None => if !override_exists {
            SwapInStep::NoOverride
        } else if bare {
            SwapInStep::BareGitignore
        } else {
            SwapInStep::Move
        },
    }
}

/// What swapping out does with one file.
#[derive(Debug, Clone, Copy, PartialEq, Eq, Structural)]
pub enum SwapOutStep {
    /// Not swapped in: passed over.
    NotIn,
    /// Swapped in by another host: the run stops.
    OtherHost,
    /// Swapped in here: edits go back to the vault, the original returns.
    Restore,
}

/// The swap-out decision for one file, from the host of its sentinel (if
/// any) and this host.
pub open spec fn spec_swap_out_step(sentinel_host: Option<Seq<char>>, host: Seq<char>) -> SwapOutStep {
    match sentinel_host {
        Some(h) => if h == host {
            SwapOutStep::Restore
        } else {
            SwapOutStep::OtherHost
        },
        None => SwapOutStep::NotIn,
    }
}

/// The swap-out decision for one file.
pub fn swap_out_step(sentinel_host: &Option<String>, host: &str) -> (s: SwapOutStep)
    ensures
        s == spec_swap_out_step(opt_text(*sentinel_host), host@),
{
    match sentinel_host {
        Some(h) => if crate::text::eq_str(&chars_of(h.as_str()), host) {
            SwapOutStep::Restore
        } else {
            SwapOutStep::OtherHost
        },
        None => SwapOutStep::NotIn,
    }
}

/// The vault copy of `relative` under `swap_dir`: the override itself, or,
/// for a `.gitignore` whose override is missing, its neutralised form.
pub open spec fn override_path(swap_dir: Seq<char>, relative: Seq<char>, use_disabled: bool) -> Seq<char> {
    if use_disabled {
        with_file_name(join(swap_dir, relative), GITIGNORE_DISABLED_NAME@)
    } else {
        join(swap_dir, relative)
    }
}

/// An entry of a swap run for `file` of the project, with its vault copy
/// under the vault `vault`'s `swap/` tree.
pub open spec fn swap_entry(f: SwapFile, project_dir: Seq<char>, file: Seq<char>, vault: Seq<char>) -> bool {
    &&& f.project_path@ == join(project_dir, file)
    &&& strip_prefix(f.project_path@, project_dir) matches Some(rel)
    &&& (f.vault_path@ == override_path(join(vault, "swap"@), rel, false)
        || f.vault_path@ == override_path(join(vault, "swap"@), rel, true))
}

/// Every entry is the swap entry of one of `files` in the vault `vault`,
/// the entries in the order of their files.
pub open spec fn entries_for(v: Seq<SwapFile>, project_dir: Seq<char>, files: Seq<String>, vault: Seq<char>) -> bool {
    exists|idx: Seq<int>| #[trigger] indexes_entries(idx, v, project_dir, files, vault)
}

/// `idx` maps each entry to the index of its file, strictly increasing.
pub open spec fn indexes_entries(idx: Seq<int>, v: Seq<SwapFile>, project_dir: Seq<char>, files: Seq<String>, vault: Seq<char>) -> bool {
    &&& idx.len() == v.len()
    &&& forall|i: int| 0 <= i < v.len() ==> 0 <= #[trigger] idx[i] < files.len() && swap_entry(v[i], project_dir, files[idx[i]]@, vault)
    &&& forall|i: int, j: int| 0 <= i < j < v.len() ==> idx[i] < idx[j]
}

/// A swap-in run's result: entries for the files in order, in the vault
/// `vault`, each swapped in on host `h`.
pub open spec fn swapped_in_result(v: Seq<SwapFile>, project_dir: Seq<char>, files: Seq<String>, vault: Seq<char>, h: Seq<char>) -> bool {
    &&& entries_for(v, project_dir, files, vault)
    &&& all_in_on(v, h)
}

/// Each entry's vault copy is the override of its project path under the
/// vault `vault`'s `swap/` tree.
pub open spec fn vault_copies(v: Seq<SwapFile>, project_dir: Seq<char>, vault: Seq<char>) -> bool {
    forall|i: int| 0 <= i < v.len() ==> (strip_prefix((#[trigger] v[i]).project_path@, project_dir) matches Some(rel)
        && v[i].vault_path@ == join(join(vault, "swap"@), rel))
}

/// Each status entry is a file of the vault `vault`'s `swap/` tree, at its
/// path relative to that tree in the project, and no two entries share it.
pub open spec fn status_entries(v: Seq<SwapFile>, project_dir: Seq<char>, vault: Seq<char>) -> bool {
    &&& forall|i: int| 0 <= i < v.len() ==> (strip_prefix((#[trigger] v[i]).vault_path@, join(vault, "swap"@)) matches Some(rel)
        && v[i].project_path@ == join(project_dir, rel))
    &&& forall|i: int, j: int| 0 <= i < j < v.len() ==> strip_prefix((#[trigger] v[i]).vault_path@, join(vault, "swap"@))
        != strip_prefix((#[trigger] v[j]).vault_path@, join(vault, "swap"@))
}

/// The status entries of some vault of the project.
pub open spec fn status_of_some_vault(v: Seq<SwapFile>, project_dir: Seq<char>) -> bool {
    exists|vault: Seq<char>| #[trigger] status_entries(v, project_dir, vault)
}

/// A swap-out run's result: entries for the files in order, in the vault
/// `vault`, each swapped out, with the override path itself.
pub open spec fn swapped_out_result(v: Seq<SwapFile>, project_dir: Seq<char>, files: Seq<String>, vault: Seq<char>) -> bool {
    &&& entries_for(v, project_dir, files, vault)
    &&& all_out(v)
    &&& forall|i: int| 0 <= i < v.len() ==> (strip_prefix((#[trigger] v[i]).project_path@, project_dir) matches Some(rel)
        && v[i].vault_path@ == join(join(vault, "swap"@), rel))
}

/// File swap-in/swap-out service.
pub struct SwapService<F: FileSystem> {
    pub vault_service: VaultService<F>,
}

impl<F: FileSystem> SwapService<F> {
    /// Create a new swap service over a vault service (and its filesystem).
    pub fn new(vault_service: VaultService<F>) -> (r: Self)
        ensures
            r.vault_service == vault_service,
    {
        SwapService { vault_service }
    }

    /// A sentinel for `relative` from any host: its path and the host.
    pub fn find_any_sentinel(&self, swap_dir: &str, relative: &str) -> (r: Option<(String, String)>)
        ensures
            r matches Some((p, h)) ==> file_name(p@) matches Some(n) && file_name(relative@) matches Some(b) && spec_sentinel_host(n, b) == Some(h@),
    {
        let joined = join_str(swap_dir, relative);
        let sentinel_dir = match parent_str(joined.as_str()) {
            Some(d) => d,
            None => return None,
        };
        let base_name = match file_name_str(relative) {
            Some(n) => n,
            None => return None,
        };
        if !self.vault_service.fs.path_exists(sentinel_dir.as_str()) {
            return None;
        }
        let entries = walk_dir(sentinel_dir.as_str(), 1);
        let mut i: usize = 0;
        while i < entries.len()
            invariant
                i <= entries.len(),
                file_name(relative@) == Some(base_name@),
            decreases entries.len() - i,
        {
            let entry = &entries[i];
            if entry.depth > 0 {
                if let Some(name) = file_name_str(entry.path.as_str()) {
                    if let Some(host) = sentinel_host(name.as_str(), base_name.as_str()) {
                        return Some((entry.path.clone(), host));
                    }
                }
            }
            i = i + 1;
        }
        None
    }

    /// Rename `.gitignore` to `.gitignore.rsenv-disabled`: every one under a
    /// directory, or the path itself when it is an existing `.gitignore`.
    pub fn disable_gitignore_files(&self, path: &str) -> (r: Result<(), ApplicationError>)
        ensures
            r matches Err(e) ==> e is OperationFailed,
    {
        let fs = &self.vault_service.fs;
        if fs.is_dir(path) {
            let entries = walk_dir(path, usize::MAX);
            let mut i: usize = 0;
            while i < entries.len()
                invariant
                    i <= entries.len(),
                decreases entries.len() - i,
            {
                let entry = &entries[i];
                if entry.is_file && has_file_name(entry.path.as_str(), ".gitignore") {
                    let disabled = with_file_name_str(entry.path.as_str(), GITIGNORE_DISABLED_NAME);
                    match fs.rename(entry.path.as_str(), disabled.as_str()) {
                        Ok(()) => {},
                        Err(e) => return Err(io_failed(context2("neutralize .gitignore: ", entry.path.as_str()), e)),
                    }
                }
                i = i + 1;
            }
        } else if has_file_name(path, ".gitignore") && fs.path_exists(path) {
            let disabled = with_file_name_str(path, GITIGNORE_DISABLED_NAME);
            match fs.rename(path, disabled.as_str()) {
                Ok(()) => {},
                Err(e) => return Err(io_failed(context2("neutralize .gitignore: ", path), e)),
            }
        }
        Ok(())
    }

    /// Rename `.gitignore.rsenv-disabled` back to `.gitignore`: every one
    /// under a directory, or the disabled form of a `.gitignore` path.
    pub fn enable_gitignore_files(&self, path: &str) -> (r: Result<(), ApplicationError>)
        ensures
            r matches Err(e) ==> e is OperationFailed,
    {
        let fs = &self.vault_service.fs;
        if fs.is_dir(path) {
            let entries = walk_dir(path, usize::MAX);
            let mut i: usize = 0;
            while i < entries.len()
                invariant
                    i <= entries.len(),
                decreases entries.len() - i,
            {
                let entry = &entries[i];
                if entry.is_file && has_file_name(entry.path.as_str(), GITIGNORE_DISABLED_NAME) {
                    let gitignore = with_file_name_str(entry.path.as_str(), ".gitignore");
                    match fs.rename(entry.path.as_str(), gitignore.as_str()) {
                        Ok(()) => {},
                        Err(e) => return Err(io_failed(context2("restore .gitignore: ", entry.path.as_str()), e)),
                    }
                }
                i = i + 1;
            }
        } else if has_file_name(path, ".gitignore") {
            let disabled = with_file_name_str(path, GITIGNORE_DISABLED_NAME);
            if fs.path_exists(disabled.as_str()) {
                match fs.rename(disabled.as_str(), path) {
                    Ok(()) => {},
                    Err(e) => return Err(io_failed(context2("restore .gitignore: ", disabled.as_str()), e)),
                }
            }
        }
        Ok(())
    }

    /// The `.gitignore` files under `path` (or `path` itself) that are not
    /// neutralised.
    pub fn find_bare_gitignore(&self, path: &str) -> (r: Vec<String>)
        ensures
            forall|i: int| 0 <= i < r.len() ==> file_name((#[trigger] r@[i])@) == Some(".gitignore"@),
    {
        let fs = &self.vault_service.fs;
        let mut bare: Vec<String> = Vec::new();
        if !fs.path_exists(path) {
            return bare;
        }
        if fs.is_dir(path) {
            let entries = walk_dir(path, usize::MAX);
            let mut i: usize = 0;
            while i < entries.len()
                invariant
                    i <= entries.len(),
                    forall|j: int| 0 <= j < bare.len() ==> file_name((#[trigger] bare@[j])@) == Some(".gitignore"@),
                decreases entries.len() - i,
            {
                let entry = &entries[i];
                if entry.is_file && has_file_name(entry.path.as_str(), ".gitignore") {
                    bare.push(entry.path.clone());
                }
                i = i + 1;
            }
        } else if has_file_name(path, ".gitignore") {
            bare.push(path.to_owned());
        }
        bare
    }

    /// The swap state of `relative`: in, on the host of its sentinel, or out.
    pub fn get_swap_state(&self, swap_dir: &str, relative: &str) -> (r: Result<SwapState, ApplicationError>)
        ensures
            r is Ok,
    {
        match self.find_any_sentinel(swap_dir, relative) {
            Some((_, hostname)) => Ok(SwapState::In { hostname }),
            None => Ok(SwapState::Out),
        }
    }

    /// The host this runs on.
    fn get_hostname() -> (r: Result<String, ApplicationError>)
        ensures
            r matches Err(e) ==> e is OperationFailed,
    {
        match host_name() {
            Ok(h) => Ok(h),
            Err(e) => Err(io_failed("get hostname".to_owned(), e)),
        }
    }

    /// Swap files in: for each file not yet swapped in by this host, put a
    /// sentinel copy of the vault's override in the vault, back the
    /// project's original up into the vault, move the override into the
    /// project and restore its `.gitignore` files; then mark `dot.envrc`.
    /// A file swapped in by another host, one without an override, or a
    /// vault copy holding a bare `.gitignore` stops the run with an error.
    pub fn swap_in(&self, project_dir: &str, files: &[String]) -> (r: Result<Vec<SwapFile>, ApplicationError>)
        ensures
            r matches Ok(v) ==> v.len() <= files.len() && exists|vault: Seq<char>, h: Seq<char>| #[trigger] swapped_in_result(v@, project_dir@, files@, vault, h),
            r matches Err(e) ==> e is OperationFailed || e is VaultNotInitialized,
    {
        let fs = &self.vault_service.fs;
        let vault = match self.vault_service.get(project_dir) {
            Ok(Some(v)) => v,
            Ok(None) => return Err(ApplicationError::VaultNotInitialized(project_dir.to_owned())),
            Err(e) => return Err(e),
        };
        let hostname = match Self::get_hostname() {
            Ok(h) => h,
            Err(e) => return Err(e),
        };
        let swap_dir = join_str(vault.path.as_str(), "swap");
        let mut swapped: Vec<SwapFile> = Vec::new();
        let ghost mut idx: Seq<int> = seq![];
        let mut k: usize = 0;
        while k < files.len()
            invariant
                k <= files.len(),
                swapped.len() <= k,
                swap_dir@ == join(vault.path@, "swap"@),
                forall|i: int| 0 <= i < swapped.len() ==> in_on((#[trigger] swapped@[i]).state, hostname@),
                indexes_entries(idx, swapped@, project_dir@, files@, vault.path@),
                forall|i: int| 0 <= i < idx.len() ==> #[trigger] idx[i] < k,
            decreases files.len() - k,
        {
            let project_file = join_str(project_dir, files[k].as_str());
            let relative = match strip_prefix_str(project_file.as_str(), project_dir) {
                Some(r) => r,
                None => return Err(detected(context2("file is not within project: ", project_file.as_str()), IoKind::InvalidInput, "file not in project")),
            };
            let mut vault_file = join_str(swap_dir.as_str(), relative.as_str());
            let ghost mut use_disabled = false;
            if !fs.path_exists(vault_file.as_str()) && has_file_name(relative.as_str(), ".gitignore") {
                let disabled = with_file_name_str(vault_file.as_str(), GITIGNORE_DISABLED_NAME);
                if fs.path_exists(disabled.as_str()) {
                    vault_file = disabled;
                    proof {
                        use_disabled = true;
                    }
                }
            }
            assert(vault_file@ == override_path(swap_dir@, relative@, use_disabled));
            let sentinel_host = match self.find_any_sentinel(swap_dir.as_str(), relative.as_str()) {
                Some((_, existing_host)) => Some(existing_host),
                None => None,
            };
            let override_exists = match sentinel_host {
                Some(_) => false,
                None => fs.path_exists(vault_file.as_str()),
            };
            let bare = if override_exists {
                self.find_bare_gitignore(vault_file.as_str())
            } else {
                Vec::new()
            };
            match swap_in_step(&sentinel_host, hostname.as_str(), override_exists, bare.len() > 0) {
                SwapInStep::AlreadyIn => {},
                SwapInStep::OtherHost => {
                    return Err(detected(context2("swapped in by another host: ", project_file.as_str()), IoKind::InvalidInput, "swapped by different host"));
                },
                SwapInStep::NoOverride => {
                    return Err(detected(context2("no vault override for ", project_file.as_str()), IoKind::NotFound, "vault override not found"));
                },
                SwapInStep::BareGitignore => {
                    let mut msg = chars_of("vault contains bare .gitignore files that should be neutralized.\nPlease rename:");
                    let mut j: usize = 0;
                    while j < bare.len()
                        invariant
                            j <= bare.len(),
                        decreases bare.len() - j,
                    {
                        push_str(&mut msg, "\n  ");
                        push_str(&mut msg, bare[j].as_str());
                        push_str(&mut msg, " → ");
                        push_str(&mut msg, bare[j].as_str());
                        push_str(&mut msg, GITIGNORE_DISABLED_SUFFIX);
                        j = j + 1;
                    }
                    return Err(detected(string_of(&msg), IoKind::InvalidData, "bare .gitignore in vault"));
                },
                SwapInStep::Move => {
                    match self.move_in(swap_dir.as_str(), relative.as_str(), hostname.as_str(), project_file.as_str(), vault_file.as_str()) {
                        Ok(()) => {},
                        Err(e) => return Err(e),
                    }
                    let ghost old = swapped@;
                    let ghost rel = relative@;
                    swapped.push(SwapFile {
                        project_path: project_file,
                        vault_path: vault_file,
                        state: SwapState::In { hostname: hostname.clone() },
                    });
                    proof {
                        let idx2 = idx.push(k as int);
                        assert(swap_entry(swapped@[old.len() as int], project_dir@, files@[k as int]@, vault.path@));
                        assert forall|i: int| 0 <= i < swapped@.len() implies 0 <= #[trigger] idx2[i] < files@.len() && swap_entry(swapped@[i], project_dir@, files@[idx2[i]]@, vault.path@) by {
                            if i < old.len() {
                                assert(swapped@[i] == old[i]);
                                assert(idx2[i] == idx[i]);
                            }
                        }
                        assert forall|i: int, j: int| 0 <= i < j < swapped@.len() implies idx2[i] < idx2[j] by {
                            if j < old.len() {
                                assert(idx2[i] == idx[i] && idx2[j] == idx[j]);
                            } else {
                                assert(idx2[i] == idx[i]);
                            }
                        }
                        idx = idx2;
                        assert(indexes_entries(idx, swapped@, project_dir@, files@, vault.path@));
                    }
                },
            }
            k = k + 1;
        }
        if swapped.len() > 0 {
            let dot_envrc = join_str(vault.path.as_str(), "dot.envrc");
            match add_swapped_marker(fs, dot_envrc.as_str()) {
                Ok(()) => {},
                Err(e) => return Err(e),
            }
        }
        proof {
            assert(entries_for(swapped@, project_dir@, files@, vault.path@));
            assert(all_in_on(swapped@, hostname@));
            assert(swapped_in_result(swapped@, project_dir@, files@, vault.path@, hostname@));
        }
        Ok(swapped)
    }

    /// Move one override into the project: a sentinel copy of it for this
    /// host, the project's original (if any) backed up, the override moved
    /// in and its `.gitignore` files restored. A failed move puts back what
    /// was moved.
    fn move_in(&self, swap_dir: &str, relative: &str, hostname: &str, project_file: &str, vault_file: &str) -> (r: Result<(), ApplicationError>)
        ensures
            r matches Err(e) ==> e is OperationFailed,
    {
        let fs = &self.vault_service.fs;
        let sentinel_path = get_sentinel_path(swap_dir, relative, hostname);
        match fs.ensure_parent(sentinel_path.as_str()) {
            Ok(()) => {},
            Err(e) => return Err(io_failed(context2("create sentinel parent for ", sentinel_path.as_str()), e)),
        }
        match fs.copy_any(vault_file, sentinel_path.as_str()) {
            Ok(()) => {},
            Err(e) => return Err(io_failed(context2("create sentinel copy of ", vault_file), e)),
        }
        let backup_path = get_backup_path(swap_dir, relative);
        if fs.path_exists(project_file) {
            match fs.move_path(project_file, backup_path.as_str()) {
                Ok(()) => {},
                Err(e) => {
                    let _ = fs.remove_any(sentinel_path.as_str());
                    return Err(io_failed(context2("backup ", project_file), e));
                },
            }
        }
        match fs.move_path(vault_file, project_file) {
            Ok(()) => {},
            Err(e) => {
                if fs.path_exists(backup_path.as_str()) {
                    let _ = fs.move_path(backup_path.as_str(), project_file);
                }
                let _ = fs.remove_any(sentinel_path.as_str());
                return Err(io_failed(context2("move into project: ", vault_file), e));
            },
        }
        self.enable_gitignore_files(project_file)
    }

    /// The project file named by `file` and its path relative to the
    /// project; an error when it lies outside the project.
    fn locate(project_dir: &str, file: &str) -> (r: Result<(String, String), ApplicationError>)
        ensures
            r is Ok <==> strip_prefix(join(project_dir@, file@), project_dir@) is Some,
            r matches Err(e) ==> e is OperationFailed,
            r matches Ok((p, rel)) ==> p@ == join(project_dir@, file@) && strip_prefix(p@, project_dir@) == Some(rel@),
    {
        let project_file = join_str(project_dir, file);
        match strip_prefix_str(project_file.as_str(), project_dir) {
            Some(r) => Ok((project_file, r)),
            None => Err(detected(context2("file is not within project: ", project_file.as_str()), IoKind::InvalidInput, "file not in project")),
        }
    }

    /// Swap files out: for each file swapped in by this host, move the
    /// project's (possibly edited) content back into the vault and
    /// neutralise its `.gitignore` files, restore the original from its
    /// backup and remove the sentinel. Files not swapped in are passed over;
    /// one swapped in by another host stops the run. When nothing stays
    /// swapped in, the mark in `dot.envrc` is removed.
    pub fn swap_out(&self, project_dir: &str, files: &[String]) -> (r: Result<Vec<SwapFile>, ApplicationError>)
        ensures
            r matches Ok(v) ==> v.len() <= files.len() && exists|vault: Seq<char>| #[trigger] swapped_out_result(v@, project_dir@, files@, vault),
            r matches Err(e) ==> e is OperationFailed || e is VaultNotInitialized,
    {
        let fs = &self.vault_service.fs;
        let vault = match self.vault_service.get(project_dir) {
            Ok(Some(v)) => v,
            Ok(None) => return Err(ApplicationError::VaultNotInitialized(project_dir.to_owned())),
            Err(e) => return Err(e),
        };
        let hostname = match Self::get_hostname() {
            Ok(h) => h,
            Err(e) => return Err(e),
        };
        let swap_dir = join_str(vault.path.as_str(), "swap");
        let mut swapped: Vec<SwapFile> = Vec::new();
        let ghost mut idx: Seq<int> = seq![];
        let mut k: usize = 0;
        while k < files.len()
            invariant
                k <= files.len(),
                swapped.len() <= k,
                swap_dir@ == join(vault.path@, "swap"@),
                all_out(swapped@),
                indexes_entries(idx, swapped@, project_dir@, files@, vault.path@),
                forall|i: int| 0 <= i < idx.len() ==> #[trigger] idx[i] < k,
                forall|i: int| 0 <= i < swapped.len() ==> (strip_prefix((#[trigger] swapped@[i]).project_path@, project_dir@) matches Some(rel)
                    && swapped@[i].vault_path@ == join(join(vault.path@, "swap"@), rel)),
            decreases files.len() - k,
        {
            let (project_file, relative) = match Self::locate(project_dir, files[k].as_str()) {
                Ok(x) => x,
                Err(e) => return Err(e),
            };
            let vault_file = join_str(swap_dir.as_str(), relative.as_str());
            let backup_path = get_backup_path(swap_dir.as_str(), relative.as_str());
            let sentinel = self.find_any_sentinel(swap_dir.as_str(), relative.as_str());
            let sentinel_host = match &sentinel {
                Some((_, h)) => Some(h.clone()),
                None => None,
            };
            let step = swap_out_step(&sentinel_host, hostname.as_str());
            if step == SwapOutStep::OtherHost {
                return Err(detected(context2("swapped in by another host: ", project_file.as_str()), IoKind::InvalidInput, "swapped by different host"));
            }
            match sentinel {
                Some((sentinel_path, _)) => {
                    let project_existed = fs.path_exists(project_file.as_str());
                    if project_existed {
                        match fs.ensure_parent(vault_file.as_str()) {
                            Ok(()) => {},
                            Err(e) => return Err(io_failed(context2("create vault parent for ", vault_file.as_str()), e)),
                        }
                        match fs.move_path(project_file.as_str(), vault_file.as_str()) {
                            Ok(()) => {},
                            Err(e) => return Err(io_failed(context2("move into vault: ", project_file.as_str()), e)),
                        }
                        match self.disable_gitignore_files(vault_file.as_str()) {
                            Ok(()) => {},
                            Err(e) => return Err(e),
                        }
                    }
                    if fs.path_exists(backup_path.as_str()) {
                        match fs.move_path(backup_path.as_str(), project_file.as_str()) {
                            Ok(()) => {},
                            Err(e) => {
                                if project_existed {
                                    let _ = fs.move_path(vault_file.as_str(), project_file.as_str());
                                }
                                return Err(io_failed(context2("restore original of ", project_file.as_str()), e));
                            },
                        }
                    }
                    match fs.remove_any(sentinel_path.as_str()) {
                        Ok(()) => {},
                        Err(e) => return Err(io_failed(context2("remove sentinel ", sentinel_path.as_str()), e)),
                    }
                    let ghost old = swapped@;
                    swapped.push(SwapFile { project_path: project_file, vault_path: vault_file, state: SwapState::Out });
                    proof {
                        let idx2 = idx.push(k as int);
                        assert(swap_entry(swapped@[old.len() as int], project_dir@, files@[k as int]@, vault.path@));
                        assert forall|i: int| 0 <= i < swapped@.len() implies 0 <= #[trigger] idx2[i] < files@.len() && swap_entry(swapped@[i], project_dir@, files@[idx2[i]]@, vault.path@) by {
                            if i < old.len() {
                                assert(swapped@[i] == old[i]);
                                assert(idx2[i] == idx[i]);
                            }
                        }
                        assert forall|i: int, j: int| 0 <= i < j < swapped@.len() implies idx2[i] < idx2[j] by {
                            if j < old.len() {
                                assert(idx2[i] == idx[i] && idx2[j] == idx[j]);
                            } else {
                                assert(idx2[i] == idx[i]);
                            }
                        }
                        assert forall|i: int| 0 <= i < swapped@.len() implies (strip_prefix((#[trigger] swapped@[i]).project_path@, project_dir@) matches Some(rel)
                            && swapped@[i].vault_path@ == join(join(vault.path@, "swap"@), rel)) by {
                            if i < old.len() {
                                assert(swapped@[i] == old[i]);
                            }
                        }
                        idx = idx2;
                    }
                },
                None => {},
            }
            k = k + 1;
        }
        proof {
            assert(entries_for(swapped@, project_dir@, files@, vault.path@));
            assert(swapped_out_result(swapped@, project_dir@, files@, vault.path@));
        }
        if swapped.len() > 0 {
            let remaining = match self.status(project_dir) {
                Ok(r) => r,
                Err(e) => return Err(e),
            };
            let mut any_in = false;
            let mut j: usize = 0;
            while j < remaining.len()
                invariant
                    j <= remaining.len(),
                decreases remaining.len() - j,
            {
                if let SwapState::In { .. } = remaining[j].state {
                    any_in = true;
                }
                j = j + 1;
            }
            if !any_in {
                let dot_envrc = join_str(vault.path.as_str(), "dot.envrc");
                match remove_swapped_marker(fs, dot_envrc.as_str()) {
                    Ok(()) => {},
                    Err(e) => return Err(e),
                }
            }
        }
        Ok(swapped)
    }

    /// First-time setup: move project files into the vault (no sentinel, no
    /// backup) and neutralise their `.gitignore` files. A missing project
    /// file, or one the vault already has, is an error.
    pub fn swap_init(&self, project_dir: &str, files: &[String]) -> (r: Result<Vec<SwapFile>, ApplicationError>)
        ensures
            r matches Ok(v) ==> v.len() == files.len() && all_out(v@) && forall|i: int| 0 <= i < v.len() ==> (#[trigger] v@[i]).project_path@ == join(project_dir@, files@[i]@),
            r matches Ok(v) ==> exists|vault: Seq<char>| #[trigger] vault_copies(v@, project_dir@, vault),
            r matches Err(e) ==> e is OperationFailed || e is VaultNotInitialized,
    {
        let fs = &self.vault_service.fs;
        let vault = match self.vault_service.get(project_dir) {
            Ok(Some(v)) => v,
            Ok(None) => return Err(ApplicationError::VaultNotInitialized(project_dir.to_owned())),
            Err(e) => return Err(e),
        };
        let swap_dir = join_str(vault.path.as_str(), "swap");
        let mut initialized: Vec<SwapFile> = Vec::new();
        let mut k: usize = 0;
        while k < files.len()
            invariant
                k <= files.len(),
                swap_dir@ == join(vault.path@, "swap"@),
                vault_copies(initialized@, project_dir@, vault.path@),
                initialized.len() == k,
                all_out(initialized@),
                forall|i: int| 0 <= i < k ==> (#[trigger] initialized@[i]).project_path@ == join(project_dir@, files@[i]@),
            decreases files.len() - k,
        {
            let (project_file, relative) = match Self::locate(project_dir, files[k].as_str()) {
                Ok(x) => x,
                Err(e) => return Err(e),
            };
            let vault_file = join_str(swap_dir.as_str(), relative.as_str());
            if !fs.path_exists(project_file.as_str()) {
                return Err(detected(context2("project file does not exist: ", project_file.as_str()), IoKind::NotFound, "file not found"));
            }
            if fs.path_exists(vault_file.as_str()) {
                return Err(detected(context2("vault already has file: ", vault_file.as_str()), IoKind::AlreadyExists, "already initialized"));
            }
            match fs.ensure_parent(vault_file.as_str()) {
                Ok(()) => {},
                Err(e) => return Err(io_failed(context2("create vault parent for ", vault_file.as_str()), e)),
            }
            match fs.move_path(project_file.as_str(), vault_file.as_str()) {
                Ok(()) => {},
                Err(e) => return Err(io_failed(context2("move into vault: ", project_file.as_str()), e)),
            }
            match self.disable_gitignore_files(vault_file.as_str()) {
                Ok(()) => {},
                Err(e) => return Err(e),
            }
            let ghost old = initialized@;
            initialized.push(SwapFile { project_path: project_file, vault_path: vault_file, state: SwapState::Out });
            proof {
                assert forall|i: int| 0 <= i < initialized@.len() implies (strip_prefix((#[trigger] initialized@[i]).project_path@, project_dir@) matches Some(rel)
                    && initialized@[i].vault_path@ == join(join(vault.path@, "swap"@), rel)) by {
                    if i < old.len() {
                        assert(initialized@[i] == old[i]);
                    }
                }
            }
            k = k + 1;
        }
        assert(vault_copies(initialized@, project_dir@, vault.path@));
        Ok(initialized)
    }

    /// Swap status of every file the vault's `swap/` tree holds: an
    /// override (swapped out) or a sentinel (swapped in), each listed once;
    /// the insides of sentinels and backups are not listed. A project
    /// without a vault, or a vault without `swap/`, has none.
    pub fn status(&self, project_dir: &str) -> (r: Result<Vec<SwapFile>, ApplicationError>)
        ensures
            r matches Err(e) ==> e is OperationFailed,
            r matches Ok(v) ==> status_of_some_vault(v@, project_dir@),
    {
        let fs = &self.vault_service.fs;
        let vault = match self.vault_service.get(project_dir) {
            Ok(Some(v)) => v,
            Ok(None) => {
                let none: Vec<SwapFile> = Vec::new();
                assert(status_entries(none@, project_dir@, Seq::<char>::empty()));
                assert(status_of_some_vault(none@, project_dir@));
                return Ok(none);
            },
            Err(e) => return Err(e),
        };
        let swap_dir = join_str(vault.path.as_str(), "swap");
        if !fs.path_exists(swap_dir.as_str()) {
            let none: Vec<SwapFile> = Vec::new();
            assert(status_entries(none@, project_dir@, vault.path@));
            assert(status_of_some_vault(none@, project_dir@));
            return Ok(none);
        }
        let mut files: Vec<SwapFile> = Vec::new();
        let mut seen: Vec<String> = Vec::new();
        let entries = walk_dir(swap_dir.as_str(), usize::MAX);
        let mut i: usize = 0;
        while i < entries.len()
            invariant
                i <= entries.len(),
                swap_dir@ == join(vault.path@, "swap"@),
                seen.len() == files.len(),
                forall|q: int| 0 <= q < files.len() ==> strip_prefix((#[trigger] files@[q]).vault_path@, swap_dir@) == Some(seen@[q]@)
                    && files@[q].project_path@ == join(project_dir@, seen@[q]@),
                forall|q: int, w: int| 0 <= q < w < seen.len() ==> (#[trigger] seen@[q])@ != (#[trigger] seen@[w])@,
            decreases entries.len() - i,
        {
            let entry = &entries[i];
            i = i + 1;
            if entry.depth == 0 || is_inside_special_dir(entry.path.as_str()) {
                continue;
            }
            let name = match file_name_str(entry.path.as_str()) {
                Some(n) => n,
                None => String::new(),
            };
            let nv = chars_of(name.as_str());
            if ends_with_str(&nv, ORIGINAL_SUFFIX) {
                continue;
            }
            let (relative, vault_path) = if ends_with_str(&nv, ACTIVE_SUFFIX) {
                let base = match sentinel_base(name.as_str()) {
                    Some(b) => b,
                    None => continue,
                };
                let dir = match parent_str(entry.path.as_str()) {
                    Some(d) => d,
                    None => swap_dir.clone(),
                };
                let base_vault_path = join_str(dir.as_str(), base.as_str());
                match strip_prefix_str(base_vault_path.as_str(), swap_dir.as_str()) {
                    Some(r) => (r, base_vault_path),
                    None => return Err(detected(context2("strip prefix from ", base_vault_path.as_str()), IoKind::InvalidData, "path error")),
                }
            } else {
                match strip_prefix_str(entry.path.as_str(), swap_dir.as_str()) {
                    Some(r) => (r, entry.path.clone()),
                    None => return Err(detected(context2("strip prefix from ", entry.path.as_str()), IoKind::InvalidData, "path error")),
                }
            };
            assert(strip_prefix(vault_path@, swap_dir@) == Some(relative@));
            if !crate::application::services::environment::contains_string(&seen, &relative) {
                let project_path = join_str(project_dir, relative.as_str());
                let state = match self.get_swap_state(swap_dir.as_str(), relative.as_str()) {
                    Ok(s) => s,
                    Err(e) => return Err(e),
                };
                let ghost old_seen = seen@;
                let ghost old_files = files@;
                let ghost rel = relative@;
                seen.push(relative);
                files.push(SwapFile { project_path, vault_path, state });
                proof {
                    assert forall|q: int| 0 <= q < files.len() implies strip_prefix((#[trigger] files@[q]).vault_path@, swap_dir@) == Some(seen@[q]@)
                        && files@[q].project_path@ == join(project_dir@, seen@[q]@) by {
                        if q < old_files.len() {
                            assert(files@[q] == old_files[q]);
                            assert(seen@[q] == old_seen[q]);
                        }
                    }
                    assert forall|q: int, w: int| 0 <= q < w < seen.len() implies (#[trigger] seen@[q])@ != (#[trigger] seen@[w])@ by {
                        if w < old_seen.len() {
                            assert(seen@[q] == old_seen[q] && seen@[w] == old_seen[w]);
                        } else {
                            assert(seen@[q] == old_seen[q]);
                            assert(seen@[w]@ == rel);
                            assert(!crate::application::services::environment::names_path(old_seen, rel));
                        }
                    }
                }
            }
        }
        proof {
            assert forall|q: int, w: int| 0 <= q < w < files.len() implies strip_prefix((#[trigger] files@[q]).vault_path@, join(vault.path@, "swap"@))
                != strip_prefix((#[trigger] files@[w]).vault_path@, join(vault.path@, "swap"@)) by {
                assert(seen@[q]@ != seen@[w]@);
            }
            assert(status_entries(files@, project_dir@, vault.path@));
            assert(status_of_some_vault(files@, project_dir@));
        }
        Ok(files)
    }

    /// The files of the project that this host has swapped in.
    pub fn swapped_in_here(&self, project_dir: &str) -> (r: Result<Vec<SwapFile>, ApplicationError>)
        ensures
            r matches Ok(v) ==> all_in_on_some_host(v@),
    {
        let status = match self.status(project_dir) {
            Ok(s) => s,
            Err(e) => return Err(e),
        };
        let hostname = match Self::get_hostname() {
            Ok(h) => h,
            Err(e) => return Err(e),
        };
        let mut mine: Vec<SwapFile> = Vec::new();
        let mut rest = status;
        while rest.len() > 0
            invariant
                all_in_on(mine@, hostname@),
            decreases rest.len(),
        {
            let f = rest.remove(0);
            let here = match &f.state {
                SwapState::In { hostname: h } => *h == hostname,
                SwapState::Out => false,
            };
            if here {
                mine.push(f);
            }
        }
        assert(all_in_on_some_host(mine@));
        Ok(mine)
    }

    /// Swap out every file of the project's vault that is swapped in
    /// (none when nothing is); returns the files swapped out.
    pub fn swap_out_vault(&self, project_dir: &str) -> (r: Result<Vec<SwapFile>, ApplicationError>)
        ensures
            r matches Ok(v) ==> all_out(v@),
    {
        let status = match self.status(project_dir) {
            Ok(s) => s,
            Err(e) => return Err(e),
        };
        let swapped_in = swapped_in_paths(&status);
        if swapped_in.len() == 0 {
            return Ok(Vec::new());
        }
        self.swap_out(project_dir, swapped_in.as_slice())
    }

    /// The projects under `base_dir` (found by their `.envrc` symlink) that
    /// have files swapped in, each with those files.
    pub fn status_all(&self, base_dir: &str) -> (r: Result<Vec<(String, Vec<SwapFile>)>, ApplicationError>)
        ensures
            r matches Ok(v) ==> forall|i: int| 0 <= i < v.len() ==> (#[trigger] v@[i]).1.len() > 0 && forall|j: int| 0 <= j < v@[i].1.len() ==> (#[trigger] v@[i].1@[j]).state is In,
    {
        let fs = &self.vault_service.fs;
        let mut found: Vec<(String, Vec<SwapFile>)> = Vec::new();
        let entries = walk_dir(base_dir, usize::MAX);
        let mut i: usize = 0;
        while i < entries.len()
            invariant
                i <= entries.len(),
                forall|k: int| 0 <= k < found.len() ==> (#[trigger] found@[k]).1.len() > 0 && forall|j: int| 0 <= j < found@[k].1.len() ==> (#[trigger] found@[k].1@[j]).state is In,
            decreases entries.len() - i,
        {
            let entry = &entries[i];
            i = i + 1;
            if !has_file_name(entry.path.as_str(), ".envrc") || !fs.is_symlink(entry.path.as_str()) {
                continue;
            }
            let project_dir = match parent_str(entry.path.as_str()) {
                Some(d) => d,
                None => continue,
            };
            let status = match self.status(project_dir.as_str()) {
                Ok(s) => s,
                Err(e) => return Err(e),
            };
            let mut active: Vec<SwapFile> = Vec::new();
            let mut rest = status;
            while rest.len() > 0
                invariant
                    forall|q: int| 0 <= q < active.len() ==> (#[trigger] active@[q]).state is In,
                decreases rest.len(),
            {
                let f = rest.remove(0);
                if let SwapState::In { .. } = f.state {
                    active.push(f);
                }
            }
            if active.len() > 0 {
                found.push((project_dir, active));
            }
        }
        Ok(found)
    }

    /// Swap out every project under `base_dir` (found by its `.envrc`
    /// symlink) that has files swapped in; returns the projects processed.
    pub fn swap_out_all(&self, base_dir: &str) -> (r: Result<Vec<String>, ApplicationError>)
        ensures
            r matches Err(e) ==> e is OperationFailed || e is VaultNotInitialized,
    {
        let fs = &self.vault_service.fs;
        let mut processed: Vec<String> = Vec::new();
        let entries = walk_dir(base_dir, usize::MAX);
        let mut i: usize = 0;
        while i < entries.len()
            invariant
                i <= entries.len(),
            decreases entries.len() - i,
        {
            let entry = &entries[i];
            i = i + 1;
            if !has_file_name(entry.path.as_str(), ".envrc") || !fs.is_symlink(entry.path.as_str()) {
                continue;
            }
            let project_dir = match parent_str(entry.path.as_str()) {
                Some(d) => d,
                None => continue,
            };
            let status = match self.status(project_dir.as_str()) {
                Ok(s) => s,
                Err(e) => return Err(e),
            };
            let swapped_in = swapped_in_paths(&status);
            if swapped_in.len() > 0 {
                match self.swap_out(project_dir.as_str(), swapped_in.as_slice()) {
                    Ok(_) => {},
                    Err(e) => return Err(e),
                }
                processed.push(project_dir);
            }
        }
        Ok(processed)
    }

    /// Delete files from swap management: their override and backup in the
    /// vault are removed; project files stay. All or nothing: when any file
    /// is swapped in, nothing is deleted.
    pub fn delete(&self, project_dir: &str, files: &[String]) -> (r: Result<Vec<SwapFile>, ApplicationError>)
        ensures
            r matches Ok(v) ==> v.len() == files.len() && all_out(v@) && forall|i: int| 0 <= i < v.len() ==> (#[trigger] v@[i]).project_path@ == join(project_dir@, files@[i]@),
            r matches Ok(v) ==> exists|vault: Seq<char>| #[trigger] vault_copies(v@, project_dir@, vault),
            r matches Err(e) ==> e is OperationFailed || e is VaultNotInitialized,
    {
        let fs = &self.vault_service.fs;
        let vault = match self.vault_service.get(project_dir) {
            Ok(Some(v)) => v,
            Ok(None) => return Err(ApplicationError::VaultNotInitialized(project_dir.to_owned())),
            Err(e) => return Err(e),
        };
        let swap_dir = join_str(vault.path.as_str(), "swap");
        let mut to_delete: Vec<(String, String, String)> = Vec::new();
        let mut k: usize = 0;
        while k < files.len()
            invariant
                k <= files.len(),
                to_delete.len() == k,
                swap_dir@ == join(vault.path@, "swap"@),
                forall|i: int| 0 <= i < k ==> (#[trigger] to_delete@[i]).0@ == join(project_dir@, files@[i]@),
                forall|i: int| 0 <= i < k ==> strip_prefix((#[trigger] to_delete@[i]).0@, project_dir@) == Some(to_delete@[i].2@)
                    && to_delete@[i].1@ == join(swap_dir@, to_delete@[i].2@),
            decreases files.len() - k,
        {
            let (project_file, relative) = match Self::locate(project_dir, files[k].as_str()) {
                Ok(x) => x,
                Err(e) => return Err(e),
            };
            if self.find_any_sentinel(swap_dir.as_str(), relative.as_str()).is_some() {
                return Err(detected(context2("cannot delete, swapped in (swap out first): ", project_file.as_str()), IoKind::InvalidInput, "file is swapped in"));
            }
            let vault_file = join_str(swap_dir.as_str(), relative.as_str());
            to_delete.push((project_file, vault_file, relative));
            k = k + 1;
        }
        let mut deleted: Vec<SwapFile> = Vec::new();
        let mut j: usize = 0;
        while j < to_delete.len()
            invariant
                j <= to_delete.len(),
                to_delete.len() == files.len(),
                deleted.len() == j,
                all_out(deleted@),
                swap_dir@ == join(vault.path@, "swap"@),
                vault_copies(deleted@, project_dir@, vault.path@),
                forall|i: int| 0 <= i < to_delete.len() ==> strip_prefix((#[trigger] to_delete@[i]).0@, project_dir@) == Some(to_delete@[i].2@)
                    && to_delete@[i].1@ == join(swap_dir@, to_delete@[i].2@),
                forall|i: int| 0 <= i < to_delete.len() ==> (#[trigger] to_delete@[i]).0@ == join(project_dir@, files@[i]@),
                forall|i: int| 0 <= i < j ==> (#[trigger] deleted@[i]).project_path@ == join(project_dir@, files@[i]@),
            decreases to_delete.len() - j,
        {
            let (project_file, vault_file, relative) = (&to_delete[j].0, &to_delete[j].1, &to_delete[j].2);
            if fs.path_exists(vault_file.as_str()) {
                match fs.remove_any(vault_file.as_str()) {
                    Ok(()) => {},
                    Err(e) => return Err(io_failed(context2("delete vault file ", vault_file.as_str()), e)),
                }
            }
            let backup_path = get_backup_path(swap_dir.as_str(), relative.as_str());
            if fs.path_exists(backup_path.as_str()) {
                match fs.remove_any(backup_path.as_str()) {
                    Ok(()) => {},
                    Err(e) => return Err(io_failed(context2("delete backup ", backup_path.as_str()), e)),
                }
            }
            let ghost old = deleted@;
            deleted.push(SwapFile { project_path: project_file.clone(), vault_path: vault_file.clone(), state: SwapState::Out });
            proof {
                assert forall|i: int| 0 <= i < deleted@.len() implies (strip_prefix((#[trigger] deleted@[i]).project_path@, project_dir@) matches Some(rel)
                    && deleted@[i].vault_path@ == join(join(vault.path@, "swap"@), rel)) by {
                    if i < old.len() {
                        assert(deleted@[i] == old[i]);
                    } else {
                        assert(to_delete@[j as int].0@ == deleted@[i].project_path@);
                    }
                }
            }
            j = j + 1;
        }
        assert(vault_copies(deleted@, project_dir@, vault.path@));
        Ok(deleted)
    }
}

} // verus!
