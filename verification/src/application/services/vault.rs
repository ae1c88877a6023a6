//! Vault management: creating a vault for a project, finding it again from
//! the project's `.envrc` symlink, and guarding files into it.
use vstd::prelude::*;

use crate::application::dotfile::{neutralize_path, neutralized_path};
use crate::application::envrc::{
    context2, delete_section, parse_rsenv_metadata, update_dot_envrc, update_source_dir,
    VARS_SECTION_DELIMITER,
};
use crate::application::error::{detected, io_failed, ApplicationError, IoKind};
use crate::application::services::environment::{default_env_content, DEFAULT_ENVS};
use crate::config::Settings;
use crate::domain::entities::{GuardedFile, Vault};
use crate::infrastructure::traits::FileSystem;
use crate::infrastructure::walk::walk_dir;
use crate::pathstr::{
    file_name, file_name_str, has_file_name, is_absolute_str, join, join_str, parent, parent_str,
    strip_prefix, strip_prefix_str,
};
use crate::text::{chars_of, contains, find_str, replace_all, replace_all_exec, starts_with, string_of};

verus! {

/// Subdirectories every vault holds.
pub const VAULT_SUBDIRS: [&'static str; 3] = ["guarded", "swap", "envs"];

/// The file in a vault that the project's `.envrc` links to.
pub const DOT_ENVRC: &'static str = "dot.envrc";

/// A path with the home directory written as `$HOME`, when a home directory
/// is known.
pub open spec fn portable(path: Seq<char>, home: Seq<char>) -> Seq<char> {
    if home.len() > 0 {
        replace_all(path, home, "$HOME"@)
    } else {
        path
    }
}

/// The text of a boolean as Rust formats it.
pub open spec fn bool_text(b: bool) -> Seq<char> {
    if b {
        "true"@
    } else {
        "false"@
    }
}

/// The rsenv section of a new vault's `dot.envrc` (without its delimiters):
/// the link mode, the format version, the sentinel, the creation time, the
/// project directory and the vault variable, then the vars marker.
pub open spec fn spec_rsenv_section(
    sentinel_id: Seq<char>,
    project_dir: Seq<char>,
    vault_path: Seq<char>,
    relative: bool,
    timestamp: Seq<char>,
    home: Seq<char>,
) -> Seq<char> {
    "# config.relative = "@ + bool_text(relative) + "\n# config.version = 2\n# state.sentinel = '"@
        + sentinel_id + "'\n# state.timestamp = '"@ + timestamp + "'\n# state.sourceDir = '"@
        + portable(project_dir, home) + "'\nexport RSENV_VAULT="@ + portable(vault_path, home)
        + "\n"@ + VARS_SECTION_DELIMITER@
}

fn portable_exec(path: &str, home: &str) -> (r: String)
    ensures
        r@ == portable(path@, home@),
{
    if chars_of(home).len() > 0 {
        replace_all_exec(path, home, "$HOME")
    } else {
        path.to_owned()
    }
}

/// The rsenv section of a new vault's `dot.envrc`, to be put between the
/// section delimiters.
pub fn generate_rsenv_section(
    sentinel_id: &str,
    project_dir: &str,
    vault_path: &str,
    relative: bool,
    timestamp: &str,
    home: &str,
) -> (r: String)
    ensures
        r@ == spec_rsenv_section(sentinel_id@, project_dir@, vault_path@, relative, timestamp@, home@),
{
    let mut v = chars_of("# config.relative = ");
    if relative {
        crate::text::push_str(&mut v, "true");
    } else {
        crate::text::push_str(&mut v, "false");
    }
    crate::text::push_str(&mut v, "\n# config.version = 2\n# state.sentinel = '");
    crate::text::push_str(&mut v, sentinel_id);
    crate::text::push_str(&mut v, "'\n# state.timestamp = '");
    crate::text::push_str(&mut v, timestamp);
    crate::text::push_str(&mut v, "'\n# state.sourceDir = '");
    let src = portable_exec(project_dir, home);
    crate::text::push_str(&mut v, src.as_str());
    crate::text::push_str(&mut v, "'\nexport RSENV_VAULT=");
    let var = portable_exec(vault_path, home);
    crate::text::push_str(&mut v, var.as_str());
    crate::text::push_str(&mut v, "\n");
    crate::text::push_str(&mut v, VARS_SECTION_DELIMITER);
    assert(v@ =~= spec_rsenv_section(sentinel_id@, project_dir@, vault_path@, relative, timestamp@, home@));
    crate::text::string_of(&v)
}

/// The current time in RFC 3339 form (`chrono::Utc::now().to_rfc3339()`).
/// It depends on the clock: nothing is stated of it.
#[verifier::external_body]
fn now_rfc3339() -> (r: String) {
    chrono::Utc::now().to_rfc3339()
}

/// The lowercase hexadecimal digits.
pub open spec fn hex_alphabet() -> Seq<char> {
    seq!['0', '1', '2', '3', '4', '5', '6', '7', '8', '9', 'a', 'b', 'c', 'd', 'e', 'f']
}

/// The last `count` hexadecimal digits of `n`, most significant first.
pub open spec fn hex_digits(n: nat, count: nat) -> Seq<char>
    decreases count,
{
    if count == 0 {
        seq![]
    } else {
        hex_digits(n / 16, (count - 1) as nat).push(hex_alphabet()[(n % 16) as int])
    }
}

/// A vault's short id: `n` as eight lowercase hexadecimal digits.
pub open spec fn spec_short_id(n: u32) -> Seq<char> {
    hex_digits(n as nat, 8)
}

/// The last `count` hexadecimal digits of `n`.
fn hex_digits_exec(n: u32, count: usize) -> (r: Vec<char>)
    requires
        count <= 8,
    ensures
        r@ == hex_digits(n as nat, count as nat),
    decreases count,
{
    if count == 0 {
        Vec::new()
    } else {
        let mut r = hex_digits_exec(n / 16, count - 1);
        let alphabet = vec!['0', '1', '2', '3', '4', '5', '6', '7', '8', '9', 'a', 'b', 'c', 'd', 'e', 'f'];
        assert(alphabet@ =~= hex_alphabet());
        r.push(alphabet[(n % 16) as usize]);
        r
    }
}

/// A short id is eight characters, each a lowercase hexadecimal digit.
pub proof fn lemma_short_id_form(n: u32)
    ensures
        spec_short_id(n).len() == 8,
        forall|i: int| 0 <= i < 8 ==> hex_alphabet().contains(#[trigger] spec_short_id(n)[i]),
{
    lemma_hex_digits_form(n as nat, 8);
}

proof fn lemma_hex_digits_form(n: nat, count: nat)
    ensures
        hex_digits(n, count).len() == count,
        forall|i: int| 0 <= i < count ==> hex_alphabet().contains(#[trigger] hex_digits(n, count)[i]),
    decreases count,
{
    if count > 0 {
        lemma_hex_digits_form(n / 16, (count - 1) as nat);
        let d = (n % 16) as int;
        assert(hex_alphabet()[d] == hex_alphabet()[d]);
        assert forall|i: int| 0 <= i < count implies hex_alphabet().contains(#[trigger] hex_digits(n, count)[i]) by {
            if i < count - 1 {
                assert(hex_digits(n, count)[i] == hex_digits(n / 16, (count - 1) as nat)[i]);
            } else {
                assert(hex_digits(n, count)[i] == hex_alphabet()[d]);
            }
        }
    }
}

/// A vault's short id from a seed: eight lowercase hexadecimal digits.
pub fn short_id(n: u32) -> (r: String)
    ensures
        r@ == spec_short_id(n),
{
    string_of(&hex_digits_exec(n, 8))
}

/// The sentinel id of a new vault: the project's directory name (or
/// `project`) and the short id.
pub open spec fn spec_sentinel_id(project_dir: Seq<char>, short_id: Seq<char>) -> Seq<char> {
    let name = match file_name(project_dir) {
        Some(n) => n,
        None => "project"@,
    };
    name + "-"@ + short_id
}

/// The sentinel id of a new vault.
pub fn sentinel_id_for(project_dir: &str, short_id: &str) -> (r: String)
    ensures
        r@ == spec_sentinel_id(project_dir@, short_id@),
{
    let name = match file_name_str(project_dir) {
        Some(n) => n,
        None => "project".to_owned(),
    };
    let with_dash = context2(name.as_str(), "-");
    context2(with_dash.as_str(), short_id)
}

/// What `init` does with the project's `.envrc`.
#[derive(Debug, Clone, Copy, PartialEq, Eq, Structural)]
pub enum EnvrcAtInit {
    /// No `.envrc`: the vault starts an empty `dot.envrc`.
    CreateEmpty,
    /// `.envrc` is a symlink: it is removed and an empty `dot.envrc` started.
    ReplaceLink,
    /// `.envrc` is a file: it moves into the vault as `dot.envrc`.
    MoveIn,
}

/// The `init` decision on the project's `.envrc`, from whether it exists
/// and whether it is a symlink.
pub open spec fn spec_envrc_at_init(exists: bool, is_symlink: bool) -> EnvrcAtInit {
    if !exists {
        EnvrcAtInit::CreateEmpty
    } else if is_symlink {
        EnvrcAtInit::ReplaceLink
    } else {
        EnvrcAtInit::MoveIn
    }
}

/// The `init` decision on the project's `.envrc`.
pub fn envrc_at_init(exists: bool, is_symlink: bool) -> (d: EnvrcAtInit)
    ensures
        d == spec_envrc_at_init(exists, is_symlink),
{
    if !exists {
        EnvrcAtInit::CreateEmpty
    } else if is_symlink {
        EnvrcAtInit::ReplaceLink
    } else {
        EnvrcAtInit::MoveIn
    }
}

/// What `reconnect` does with the project's `.envrc`.
#[derive(Debug, Clone, Copy, PartialEq, Eq, Structural)]
pub enum EnvrcAtReconnect {
    /// Already a link to this vault's `dot.envrc`: nothing to do.
    AlreadyLinked,
    /// A link elsewhere: refused.
    PointsElsewhere,
    /// A regular file: refused.
    FileInTheWay,
    /// Absent: the link is created.
    Link,
}

/// The `reconnect` decision on the project's `.envrc`, from whether it
/// exists, whether it is a symlink, and whether it resolves to the vault's
/// `dot.envrc`.
pub open spec fn spec_envrc_at_reconnect(exists: bool, is_symlink: bool, points_here: bool) -> EnvrcAtReconnect {
    if !exists {
        EnvrcAtReconnect::Link
    } else if !is_symlink {
        EnvrcAtReconnect::FileInTheWay
    } else if points_here {
        EnvrcAtReconnect::AlreadyLinked
    } else {
        EnvrcAtReconnect::PointsElsewhere
    }
}

/// The `reconnect` decision on the project's `.envrc`.
pub fn envrc_at_reconnect(exists: bool, is_symlink: bool, points_here: bool) -> (d: EnvrcAtReconnect)
    ensures
        d == spec_envrc_at_reconnect(exists, is_symlink, points_here),
{
    if !exists {
        EnvrcAtReconnect::Link
    } else if !is_symlink {
        EnvrcAtReconnect::FileInTheWay
    } else if points_here {
        EnvrcAtReconnect::AlreadyLinked
    } else {
        EnvrcAtReconnect::PointsElsewhere
    }
}

/// The project has moved: the recorded source directory is neither the
/// project directory nor its `$HOME` form.
pub open spec fn project_moved(recorded: Seq<char>, project_dir: Seq<char>, home: Seq<char>) -> bool {
    recorded != project_dir && recorded != portable(project_dir, home)
}

/// Whether the project has moved from its recorded source directory.
pub fn has_project_moved(recorded: &str, project_dir: &str, home: &str) -> (b: bool)
    ensures
        b == project_moved(recorded@, project_dir@, home@),
{
    let rv = chars_of(recorded);
    if crate::text::eq_str(&rv, project_dir) {
        return false;
    }
    let p = portable_exec(project_dir, home);
    !crate::text::eq_str(&rv, p.as_str())
}

/// A guarded file of the project `project` kept in the vault `vault`: its
/// place in the vault's `guarded/` tree is its path relative to the
/// project with every component neutralised.
pub open spec fn guarded_at(g: GuardedFile, vault: Seq<char>, project: Seq<char>) -> bool {
    strip_prefix(g.project_path@, project) matches Some(rel)
        && g.vault_path@ == join(join(vault, "guarded"@), neutralized_path(rel))
}

/// The file is guarded in some vault of some project.
pub open spec fn guarded_in_some_vault(g: GuardedFile) -> bool {
    exists|vault: Seq<char>, project: Seq<char>| #[trigger] guarded_at(g, vault, project)
}

/// Vault management service.
pub struct VaultService<F: FileSystem> {
    pub fs: F,
    pub settings: Settings,
    /// The user's home directory (empty when unknown); generated sections
    /// write it as `$HOME`.
    pub home_dir: String,
}

impl<F: FileSystem> VaultService<F> {
    /// Create a new vault service.
    pub fn new(fs: F, settings: Settings, home_dir: String) -> (r: Self)
        ensures
            r.fs == fs,
            r.settings == settings,
            r.home_dir == home_dir,
    {
        VaultService { fs, settings, home_dir }
    }

    /// Discover the vault path from the project's `.envrc` symlink, without
    /// settings; `None` when the project is not linked to a vault.
    pub fn discover_vault_path(fs: &F, project_dir: &str) -> (r: Result<Option<String>, ApplicationError>)
        ensures
            r is Ok,
    {
        let project_dir = match fs.canonicalize(project_dir) {
            Ok(p) => p,
            Err(_) => return Ok(None),
        };
        let envrc_path = join_str(project_dir.as_str(), ".envrc");
        if !fs.path_exists(envrc_path.as_str()) || !fs.is_symlink(envrc_path.as_str()) {
            return Ok(None);
        }
        let target = match fs.read_link(envrc_path.as_str()) {
            Ok(t) => t,
            Err(_) => return Ok(None),
        };
        if !has_file_name(target.as_str(), DOT_ENVRC) {
            return Ok(None);
        }
        let resolved = join_str(project_dir.as_str(), target.as_str());
        let resolved = match fs.canonicalize(resolved.as_str()) {
            Ok(p) => p,
            Err(_) => return Ok(None),
        };
        Ok(parent_str(resolved.as_str()))
    }

    /// Initialize a vault for a project: create `<vaults>/<name>-<short_id>`,
    /// move an existing `.envrc` into it as `dot.envrc` (or start an empty
    /// one), inject the rsenv section, scaffold the subdirectories and the
    /// default env files, and link `.envrc` to `dot.envrc`. A project that
    /// already has a vault gets that vault back.
    pub fn init(&self, project_dir: &str, absolute: bool, seed: u32) -> (r: Result<Vault, ApplicationError>)
        ensures
            r matches Ok(v) ==> file_name(v.path@) == Some(v.sentinel_id@) || exists|pd: Seq<char>| v.sentinel_id@ == #[trigger] spec_sentinel_id(pd, spec_short_id(seed)),
            r matches Err(e) ==> e is OperationFailed,
    {
        let project_dir = match self.fs.canonicalize(project_dir) {
            Ok(p) => p,
            Err(e) => return Err(io_failed(context2("canonicalize project dir: ", project_dir), e)),
        };
        match self.get(project_dir.as_str()) {
            Ok(Some(vault)) => return Ok(vault),
            Ok(None) => {},
            Err(e) => return Err(e),
        }
        let short = short_id(seed);
        let sentinel_id = sentinel_id_for(project_dir.as_str(), short.as_str());
        let vaults = self.settings.vaults_dir();
        let vault_path = join_str(vaults.as_str(), sentinel_id.as_str());
        match self.fs.create_dir_all(vault_path.as_str()) {
            Ok(()) => {},
            Err(e) => return Err(io_failed(context2("create vault directory: ", vault_path.as_str()), e)),
        }
        let vault_path = match self.fs.canonicalize(vault_path.as_str()) {
            Ok(p) => p,
            Err(e) => return Err(io_failed(context2("canonicalize vault path: ", vault_path.as_str()), e)),
        };
        let envrc_link = join_str(project_dir.as_str(), ".envrc");
        let dot_envrc_path = join_str(vault_path.as_str(), DOT_ENVRC);
        let exists = self.fs.path_exists(envrc_link.as_str());
        let is_symlink = exists && self.fs.is_symlink(envrc_link.as_str());
        match envrc_at_init(exists, is_symlink) {
            EnvrcAtInit::ReplaceLink => {
                match self.fs.remove_file(envrc_link.as_str()) {
                    Ok(()) => {},
                    Err(e) => return Err(io_failed(context2("remove existing .envrc symlink: ", envrc_link.as_str()), e)),
                }
                match self.fs.write(dot_envrc_path.as_str(), "") {
                    Ok(()) => {},
                    Err(e) => return Err(io_failed(context2("create dot.envrc: ", dot_envrc_path.as_str()), e)),
                }
            },
            EnvrcAtInit::MoveIn => {
                match self.fs.rename(envrc_link.as_str(), dot_envrc_path.as_str()) {
                    Ok(()) => {},
                    Err(e) => return Err(io_failed(context2("move existing .envrc to ", dot_envrc_path.as_str()), e)),
                }
            },
            EnvrcAtInit::CreateEmpty => {
                match self.fs.write(dot_envrc_path.as_str(), "") {
                    Ok(()) => {},
                    Err(e) => return Err(io_failed(context2("create dot.envrc: ", dot_envrc_path.as_str()), e)),
                }
            },
        }
        let timestamp = now_rfc3339();
        let section = generate_rsenv_section(
            sentinel_id.as_str(),
            project_dir.as_str(),
            vault_path.as_str(),
            !absolute,
            timestamp.as_str(),
            self.home_dir.as_str(),
        );
        match update_dot_envrc(&self.fs, dot_envrc_path.as_str(), section.as_str()) {
            Ok(()) => {},
            Err(e) => return Err(e),
        }
        match self.create_vault_subdirectories(vault_path.as_str()) {
            Ok(()) => {},
            Err(e) => return Err(e),
        }
        match self.create_default_env_files(vault_path.as_str()) {
            Ok(()) => {},
            Err(e) => return Err(e),
        }
        let linked = if absolute {
            self.fs.symlink(dot_envrc_path.as_str(), envrc_link.as_str())
        } else {
            self.fs.symlink_relative(dot_envrc_path.as_str(), envrc_link.as_str())
        };
        match linked {
            Ok(()) => {},
            Err(e) => return Err(io_failed(context2("create .envrc symlink: ", envrc_link.as_str()), e)),
        }
        let ghost pd = project_dir@;
        assert(sentinel_id@ == spec_sentinel_id(pd, spec_short_id(seed)));
        Ok(Vault { path: vault_path, sentinel_id })
    }

    /// The vault of a project, if its `.envrc` is a symlink to a vault's
    /// `dot.envrc`; the sentinel id is the vault directory's name.
    pub fn get(&self, project_dir: &str) -> (r: Result<Option<Vault>, ApplicationError>)
        ensures
            r matches Ok(Some(v)) ==> file_name(v.path@) == Some(v.sentinel_id@),
            r matches Err(e) ==> e is OperationFailed,
    {
        let project_dir = match self.fs.canonicalize(project_dir) {
            Ok(p) => p,
            Err(_) => return Ok(None),
        };
        let envrc_path = join_str(project_dir.as_str(), ".envrc");
        if !self.fs.path_exists(envrc_path.as_str()) || !self.fs.is_symlink(envrc_path.as_str()) {
            return Ok(None);
        }
        let target = match self.fs.read_link(envrc_path.as_str()) {
            Ok(t) => t,
            Err(e) => return Err(io_failed(context2("read .envrc symlink: ", envrc_path.as_str()), e)),
        };
        if !has_file_name(target.as_str(), DOT_ENVRC) {
            return Ok(None);
        }
        let resolved = join_str(project_dir.as_str(), target.as_str());
        let resolved = match self.fs.canonicalize(resolved.as_str()) {
            Ok(p) => p,
            Err(e) => return Err(io_failed(context2("resolve vault path: ", resolved.as_str()), e)),
        };
        let vault_path = match parent_str(resolved.as_str()) {
            Some(p) => p,
            None => return Err(detected(context2("invalid vault path: ", resolved.as_str()), IoKind::InvalidData, "cannot determine vault directory")),
        };
        let sentinel_id = match file_name_str(vault_path.as_str()) {
            Some(n) => n,
            None => return Err(detected(context2("invalid vault name: ", vault_path.as_str()), IoKind::InvalidData, "cannot determine sentinel ID")),
        };
        Ok(Some(Vault { path: vault_path, sentinel_id }))
    }

    /// Reconnect a project to its vault by re-creating the `.envrc` symlink
    /// to `dot_envrc_path`, updating the recorded source directory when the
    /// project has moved. Linking again to the same target succeeds without
    /// change; an `.envrc` that is a file, or a link elsewhere, is an error.
    pub fn reconnect(&self, dot_envrc_path: &str, project_dir: &str) -> (r: Result<Vault, ApplicationError>)
        ensures
            r matches Ok(v) ==> exists|c: Seq<char>| #[trigger] crate::application::envrc::metadata_of(c) matches Some(m) && m.1 == v.sentinel_id@,
            r matches Err(e) ==> e is OperationFailed,
    {
        if !self.fs.path_exists(dot_envrc_path) {
            return Err(detected(context2("dot.envrc not found: ", dot_envrc_path), IoKind::NotFound, "file not found"));
        }
        let content = match self.fs.read_to_string(dot_envrc_path) {
            Ok(c) => c,
            Err(e) => return Err(io_failed(context2("read dot.envrc: ", dot_envrc_path), e)),
        };
        let metadata = match parse_rsenv_metadata(content.as_str()) {
            Some(m) => m,
            None => return Err(detected(context2("no rsenv section in: ", dot_envrc_path), IoKind::InvalidData, "not an rsenv-managed file")),
        };
        let ghost c = content@;
        assert(crate::application::envrc::metadata_of(c) matches Some(m) && m.1 == metadata.sentinel@);
        let project_dir = match self.fs.canonicalize(project_dir) {
            Ok(p) => p,
            Err(e) => return Err(io_failed(context2("canonicalize project dir: ", project_dir), e)),
        };
        let dot_envrc = match self.fs.canonicalize(dot_envrc_path) {
            Ok(p) => p,
            Err(e) => return Err(io_failed(context2("canonicalize dot.envrc: ", dot_envrc_path), e)),
        };
        let vault_path = match parent_str(dot_envrc.as_str()) {
            Some(p) => p,
            None => return Err(detected(context2("invalid vault path: ", dot_envrc.as_str()), IoKind::InvalidData, "cannot determine vault directory")),
        };
        let envrc_link = join_str(project_dir.as_str(), ".envrc");
        let exists = self.fs.path_exists(envrc_link.as_str());
        let is_symlink = exists && self.fs.is_symlink(envrc_link.as_str());
        let mut points_here = false;
        if is_symlink {
            if let Ok(target) = self.fs.read_link(envrc_link.as_str()) {
                let resolved = join_str(project_dir.as_str(), target.as_str());
                if let Ok(resolved) = self.fs.canonicalize(resolved.as_str()) {
                    points_here = resolved == dot_envrc;
                }
            }
        }
        match envrc_at_reconnect(exists, is_symlink, points_here) {
            EnvrcAtReconnect::AlreadyLinked => {
                return Ok(Vault { path: vault_path, sentinel_id: metadata.sentinel });
            },
            EnvrcAtReconnect::PointsElsewhere => {
                return Err(detected(context2(".envrc symlink exists but points elsewhere: ", envrc_link.as_str()), IoKind::AlreadyExists, "symlink points to different target"));
            },
            EnvrcAtReconnect::FileInTheWay => {
                return Err(detected(context2("cannot overwrite existing .envrc file: ", envrc_link.as_str()), IoKind::AlreadyExists, "regular file exists"));
            },
            EnvrcAtReconnect::Link => {},
        }
        if has_project_moved(metadata.source_dir.as_str(), project_dir.as_str(), self.home_dir.as_str()) {
            match update_source_dir(&self.fs, dot_envrc.as_str(), project_dir.as_str()) {
                Ok(()) => {},
                Err(e) => return Err(e),
            }
        }
        let linked = if metadata.relative {
            self.fs.symlink_relative(dot_envrc.as_str(), envrc_link.as_str())
        } else {
            self.fs.symlink(dot_envrc.as_str(), envrc_link.as_str())
        };
        match linked {
            Ok(()) => {},
            Err(e) => return Err(io_failed(context2("create .envrc symlink: ", envrc_link.as_str()), e)),
        }
        Ok(Vault { path: vault_path, sentinel_id: metadata.sentinel })
    }

    /// Create the vault subdirectories (guarded, swap, envs).
    fn create_vault_subdirectories(&self, vault_dir: &str) -> (r: Result<(), ApplicationError>)
        ensures
            r matches Err(e) ==> e is OperationFailed,
    {
        let mut i: usize = 0;
        while i < 3
            invariant
                i <= 3,
            decreases 3 - i,
        {
            let dir = join_str(vault_dir, VAULT_SUBDIRS[i]);
            match self.fs.create_dir_all(dir.as_str()) {
                Ok(()) => {},
                Err(e) => return Err(io_failed(context2("create vault subdirectory: ", dir.as_str()), e)),
            }
            i = i + 1;
        }
        Ok(())
    }

    /// Create the default env files in the vault's `envs` subdirectory.
    fn create_default_env_files(&self, vault_dir: &str) -> (r: Result<(), ApplicationError>)
        ensures
            r matches Err(e) ==> e is OperationFailed,
    {
        let envs_dir = join_str(vault_dir, "envs");
        let mut i: usize = 0;
        while i < 6
            invariant
                i <= 6,
            decreases 6 - i,
        {
            let env = DEFAULT_ENVS[i];
            let name = context2(env, ".env");
            let path = join_str(envs_dir.as_str(), name.as_str());
            let content = default_env_content(env);
            match self.fs.write(path.as_str(), content.as_str()) {
                Ok(()) => {},
                Err(e) => return Err(io_failed(context2("create env file: ", path.as_str()), e)),
            }
            i = i + 1;
        }
        Ok(())
    }

    /// Guard a file: move it into the vault's `guarded/` tree (its
    /// dot-components neutralised) and leave a symlink in its place. A file
    /// that is already a symlink into a `guarded/` tree is refused.
    pub fn guard(&self, file: &str, absolute: bool) -> (r: Result<GuardedFile, ApplicationError>)
        ensures
            r matches Ok(g) ==> !g.encrypted,
            r matches Ok(g) ==> guarded_in_some_vault(g),
            r matches Err(ApplicationError::AlreadyGuarded(p)) ==> p@ == file@,
    {
        if self.fs.is_symlink(file) {
            if let Ok(target) = self.fs.read_link(file) {
                if find_str(&chars_of(target.as_str()), "/guarded/").is_some() {
                    return Err(ApplicationError::AlreadyGuarded(file.to_owned()));
                }
            }
        }
        let file = match self.fs.canonicalize(file) {
            Ok(p) => p,
            Err(e) => return Err(io_failed(context2("canonicalize file: ", file), e)),
        };
        let project_dir = match self.find_project_dir(file.as_str()) {
            Ok(d) => d,
            Err(e) => return Err(e),
        };
        let vault = match self.get(project_dir.as_str()) {
            Ok(Some(v)) => v,
            Ok(None) => return Err(ApplicationError::VaultNotInitialized(project_dir)),
            Err(e) => return Err(e),
        };
        let relative = match strip_prefix_str(file.as_str(), project_dir.as_str()) {
            Some(r) => r,
            None => return Err(detected(context2("file is not within project: ", file.as_str()), IoKind::InvalidInput, "file not in project")),
        };
        let neutralized = neutralize_path(relative.as_str());
        let guarded = join_str(vault.path.as_str(), "guarded");
        let vault_path = join_str(guarded.as_str(), neutralized.as_str());
        match self.fs.ensure_parent(vault_path.as_str()) {
            Ok(()) => {},
            Err(e) => return Err(io_failed(context2("create vault directory for ", vault_path.as_str()), e)),
        }
        match self.fs.rename(file.as_str(), vault_path.as_str()) {
            Ok(()) => {},
            Err(e) => return Err(io_failed(context2("move file into vault: ", file.as_str()), e)),
        }
        let linked = if absolute {
            self.fs.symlink(vault_path.as_str(), file.as_str())
        } else {
            self.fs.symlink_relative(vault_path.as_str(), file.as_str())
        };
        match linked {
            Ok(()) => {},
            Err(e) => return Err(io_failed(context2("create symlink ", file.as_str()), e)),
        }
        let g = GuardedFile { project_path: file, vault_path, encrypted: false };
        assert(guarded_at(g, vault.path@, project_dir@));
        assert(guarded_in_some_vault(g));
        Ok(g)
    }

    /// Unguard a file: remove the symlink in the project and move the file
    /// back from the vault. A path that is no symlink is refused.
    pub fn unguard(&self, file: &str) -> (r: Result<(), ApplicationError>)
        ensures
            r matches Err(e) ==> e is OperationFailed,
    {
        if !self.fs.is_symlink(file) {
            return Err(detected(context2("not a guarded file (not a symlink): ", file), IoKind::InvalidInput, "not a symlink"));
        }
        let link_target = match self.fs.read_link(file) {
            Ok(t) => t,
            Err(e) => return Err(io_failed(context2("read symlink: ", file), e)),
        };
        let vault_path = if is_absolute_str(link_target.as_str()) {
            link_target
        } else {
            let file_parent = match parent_str(file) {
                Some(p) => p,
                None => ".".to_owned(),
            };
            let joined = join_str(file_parent.as_str(), link_target.as_str());
            match self.fs.canonicalize(joined.as_str()) {
                Ok(p) => p,
                Err(e) => return Err(io_failed(context2("resolve symlink target: ", link_target.as_str()), e)),
            }
        };
        if !self.fs.path_exists(vault_path.as_str()) {
            return Err(detected(context2("vault file not found: ", vault_path.as_str()), IoKind::NotFound, "vault file missing"));
        }
        match self.fs.remove_file(file) {
            Ok(()) => {},
            Err(e) => return Err(io_failed(context2("remove symlink: ", file), e)),
        }
        match self.fs.rename(vault_path.as_str(), file) {
            Ok(()) => Ok(()),
            Err(e) => Err(io_failed(context2("restore file from vault: ", vault_path.as_str()), e)),
        }
    }

    /// Reset a vault: restore every guarded file whose project path is still
    /// a symlink, remove the `.envrc` symlink and put back the original
    /// `.envrc` (its backup, or `dot.envrc` without the rsenv section). The
    /// vault directory stays. Returns the number of files restored; a file
    /// that cannot be restored is passed over.
    pub fn reset(&self, project_dir: &str) -> (r: Result<usize, ApplicationError>) {
        let project_dir = match self.fs.canonicalize(project_dir) {
            Ok(p) => p,
            Err(e) => return Err(io_failed(context2("canonicalize project dir: ", project_dir), e)),
        };
        let vault = match self.get(project_dir.as_str()) {
            Ok(Some(v)) => v,
            Ok(None) => return Err(ApplicationError::VaultNotInitialized(project_dir)),
            Err(e) => return Err(e),
        };
        let guarded_dir = join_str(vault.path.as_str(), "guarded");
        let mut restored: usize = 0;
        if self.fs.path_exists(guarded_dir.as_str()) {
            let entries = walk_dir(guarded_dir.as_str(), usize::MAX);
            let mut i: usize = 0;
            while i < entries.len()
                invariant
                    i <= entries.len(),
                    restored <= i,
                decreases entries.len() - i,
            {
                let entry = &entries[i];
                if entry.is_file {
                    if let Some(relative) = strip_prefix_str(entry.path.as_str(), guarded_dir.as_str()) {
                        let project_path = join_str(project_dir.as_str(), relative.as_str());
                        if self.fs.is_symlink(project_path.as_str()) {
                            if self.unguard(project_path.as_str()).is_ok() {
                                restored = restored + 1;
                            }
                        }
                    }
                }
                i = i + 1;
            }
        }
        let envrc_path = join_str(project_dir.as_str(), ".envrc");
        let backup_path = join_str(vault.path.as_str(), "envrc.backup");
        let dot_envrc_path = join_str(vault.path.as_str(), DOT_ENVRC);
        if self.fs.is_symlink(envrc_path.as_str()) {
            match self.fs.remove_file(envrc_path.as_str()) {
                Ok(()) => {},
                Err(e) => return Err(io_failed(context2("remove .envrc symlink: ", envrc_path.as_str()), e)),
            }
        }
        if self.fs.path_exists(backup_path.as_str()) {
            match self.fs.rename(backup_path.as_str(), envrc_path.as_str()) {
                Ok(()) => {},
                Err(e) => return Err(io_failed(context2("restore .envrc backup from ", backup_path.as_str()), e)),
            }
        } else if self.fs.path_exists(dot_envrc_path.as_str()) {
            match self.fs.rename(dot_envrc_path.as_str(), envrc_path.as_str()) {
                Ok(()) => {},
                Err(e) => return Err(io_failed(context2("move dot.envrc to .envrc from ", dot_envrc_path.as_str()), e)),
            }
            match delete_section(&self.fs, envrc_path.as_str()) {
                Ok(()) => {},
                Err(e) => return Err(e),
            }
        }
        Ok(restored)
    }

    /// The project directory of a file: the nearest directory above it that
    /// holds an `.envrc` symlink.
    pub fn find_project_dir(&self, file: &str) -> (r: Result<String, ApplicationError>)
        ensures
            r matches Ok(d) ==> starts_with(file@, d@),
            r matches Err(e) ==> e matches ApplicationError::VaultNotInitialized(p) && p@ == file@,
    {
        let mut current = parent_str(file);
        proof {
            crate::pathstr::lemma_parent_prefix(file@);
        }
        loop
            invariant
                current matches Some(c) ==> starts_with(file@, c@),
            decreases match current { Some(c) => c@.len() + 1, None => 0nat },
        {
            let dir = match current {
                Some(d) => d,
                None => return Err(ApplicationError::VaultNotInitialized(file.to_owned())),
            };
            let envrc = join_str(dir.as_str(), ".envrc");
            if self.fs.is_symlink(envrc.as_str()) {
                return Ok(dir);
            }
            let next = parent_str(dir.as_str());
            let ghost nd = crate::pathstr::opt_text(next);
            proof {
                crate::pathstr::lemma_parent_prefix(dir@);
                match nd {
                    Some(n) => {
                        assert(file@.subrange(0, n.len() as int) =~= dir@.subrange(0, n.len() as int));
                    },
                    None => {},
                }
            }
            current = next;
        }
    }
}

} // verus!
