use std::cell::RefCell;
use std::collections::BTreeMap;
use std::io;

use rsenv::application::error::ApplicationError;
use rsenv::application::services::environment::EnvironmentService;
use rsenv::application::services::sops::SopsService;
use rsenv::application::services::swap::SwapService;
use rsenv::application::services::vault::VaultService;
use rsenv::application::services::vault_commit::{CommitOptions, ProjectCommit, VaultCommitService};
use rsenv::config::Settings;
use rsenv::infrastructure::traits::{CommandOutput, CommandRunner, FileSystem};

#[derive(Clone, Debug, PartialEq)]
enum Node {
    File(String),
    Dir,
    Link(String),
}

/// An in-memory filesystem with directories, files and symbolic links;
/// every path is absolute.
struct MemFs {
    nodes: RefCell<BTreeMap<String, Node>>,
}

fn not_found(p: &str) -> io::Error {
    io::Error::new(io::ErrorKind::NotFound, format!("not found: {p}"))
}

fn normalize(p: &str) -> String {
    let mut parts: Vec<&str> = Vec::new();
    for c in p.split('/') {
        match c {
            "" | "." => {}
            ".." => {
                parts.pop();
            }
            other => parts.push(other),
        }
    }
    format!("/{}", parts.join("/"))
}

fn parent_of(p: &str) -> String {
    match p.rfind('/') {
        Some(0) | None => "/".to_string(),
        Some(i) => p[..i].to_string(),
    }
}

fn join(a: &str, b: &str) -> String {
    if b.starts_with('/') {
        b.to_string()
    } else if a.ends_with('/') {
        format!("{a}{b}")
    } else {
        format!("{a}/{b}")
    }
}

impl MemFs {
    fn new() -> Self {
        let fs = MemFs { nodes: RefCell::new(BTreeMap::new()) };
        fs.nodes.borrow_mut().insert("/".to_string(), Node::Dir);
        fs
    }

    fn get(&self, p: &str) -> Option<Node> {
        self.nodes.borrow().get(p).cloned()
    }

    /// Resolve symbolic links in every component (the last one only when
    /// `follow_last`).
    fn resolve(&self, p: &str, follow_last: bool) -> String {
        let mut path = normalize(p);
        for _ in 0..64 {
            let comps: Vec<String> = path.split('/').filter(|c| !c.is_empty()).map(|c| c.to_string()).collect();
            let mut prefix = String::new();
            let mut changed = false;
            for (i, c) in comps.iter().enumerate() {
                prefix = format!("{prefix}/{c}");
                let last = i + 1 == comps.len();
                if last && !follow_last {
                    break;
                }
                if let Some(Node::Link(t)) = self.get(&prefix) {
                    let rest = comps[i + 1..].join("/");
                    let base = join(&parent_of(&prefix), &t);
                    path = normalize(&if rest.is_empty() { base } else { format!("{base}/{rest}") });
                    changed = true;
                    break;
                }
            }
            if !changed {
                return path;
            }
        }
        path
    }

    fn file(&self, p: &str, content: &str) {
        let p = normalize(p);
        self.create_dir_all(&parent_of(&p)).unwrap();
        self.nodes.borrow_mut().insert(p, Node::File(content.to_string()));
    }

    fn dir(&self, p: &str) {
        self.create_dir_all(p).unwrap();
    }

    fn content(&self, p: &str) -> Option<String> {
        match self.get(&self.resolve(p, true)) {
            Some(Node::File(c)) => Some(c),
            _ => None,
        }
    }

    fn subtree(&self, p: &str) -> Vec<(String, Node)> {
        let prefix = format!("{p}/");
        self.nodes
            .borrow()
            .iter()
            .filter(|(k, _)| k.as_str() == p || k.starts_with(&prefix))
            .map(|(k, v)| (k.clone(), v.clone()))
            .collect()
    }
}

impl FileSystem for MemFs {
    fn read_to_string(&self, path: &str) -> Result<String, io::Error> {
        self.content(path).ok_or_else(|| not_found(path))
    }

    fn read(&self, path: &str) -> Result<Vec<u8>, io::Error> {
        self.content(path).map(|c| c.into_bytes()).ok_or_else(|| not_found(path))
    }

    fn write(&self, path: &str, content: &str) -> Result<(), io::Error> {
        let p = self.resolve(path, true);
        if self.get(&parent_of(&p)) != Some(Node::Dir) {
            return Err(not_found(path));
        }
        self.nodes.borrow_mut().insert(p, Node::File(content.to_string()));
        Ok(())
    }

    fn path_exists(&self, path: &str) -> bool {
        self.get(&self.resolve(path, true)).is_some()
    }

    fn is_file(&self, path: &str) -> bool {
        matches!(self.get(&self.resolve(path, true)), Some(Node::File(_)))
    }

    fn is_dir(&self, path: &str) -> bool {
        matches!(self.get(&self.resolve(path, true)), Some(Node::Dir))
    }

    fn create_dir_all(&self, path: &str) -> Result<(), io::Error> {
        let p = self.resolve(path, true);
        let mut prefix = String::new();
        for c in p.split('/').filter(|c| !c.is_empty()) {
            prefix = format!("{prefix}/{c}");
            match self.get(&prefix) {
                None => {
                    self.nodes.borrow_mut().insert(prefix.clone(), Node::Dir);
                }
                Some(Node::Dir) => {}
                Some(_) => return Err(io::Error::new(io::ErrorKind::AlreadyExists, prefix)),
            }
        }
        Ok(())
    }

    fn rename(&self, from: &str, to: &str) -> Result<(), io::Error> {
        let src = self.resolve(from, false);
        let dst = self.resolve(to, false);
        if self.get(&src).is_none() {
            return Err(not_found(from));
        }
        if self.get(&parent_of(&dst)) != Some(Node::Dir) {
            return Err(not_found(to));
        }
        let moved = self.subtree(&src);
        let mut nodes = self.nodes.borrow_mut();
        for (k, _) in &moved {
            nodes.remove(k);
        }
        for (k, v) in moved {
            let nk = format!("{dst}{}", &k[src.len()..]);
            nodes.insert(nk, v);
        }
        Ok(())
    }

    fn remove_file(&self, path: &str) -> Result<(), io::Error> {
        let p = self.resolve(path, false);
        match self.get(&p) {
            Some(Node::File(_)) | Some(Node::Link(_)) => {
                self.nodes.borrow_mut().remove(&p);
                Ok(())
            }
            _ => Err(not_found(path)),
        }
    }

    fn remove_dir_all(&self, path: &str) -> Result<(), io::Error> {
        let p = self.resolve(path, false);
        let gone = self.subtree(&p);
        if gone.is_empty() {
            return Err(not_found(path));
        }
        let mut nodes = self.nodes.borrow_mut();
        for (k, _) in gone {
            nodes.remove(&k);
        }
        Ok(())
    }

    fn symlink(&self, original: &str, link: &str) -> Result<(), io::Error> {
        let l = self.resolve(link, false);
        if self.get(&l).is_some() {
            return Err(io::Error::new(io::ErrorKind::AlreadyExists, link.to_string()));
        }
        self.nodes.borrow_mut().insert(l, Node::Link(original.to_string()));
        Ok(())
    }

    fn symlink_relative(&self, original: &str, link: &str) -> Result<(), io::Error> {
        let from: Vec<String> = normalize(&parent_of(&normalize(link))).split('/').filter(|c| !c.is_empty()).map(String::from).collect();
        let to: Vec<String> = normalize(original).split('/').filter(|c| !c.is_empty()).map(String::from).collect();
        let common = from.iter().zip(to.iter()).take_while(|(a, b)| a == b).count();
        let mut parts: Vec<String> = vec!["..".to_string(); from.len() - common];
        parts.extend(to[common..].iter().cloned());
        self.symlink(&parts.join("/"), link)
    }

    fn read_link(&self, path: &str) -> Result<String, io::Error> {
        match self.get(&self.resolve(path, false)) {
            Some(Node::Link(t)) => Ok(t),
            _ => Err(io::Error::new(io::ErrorKind::InvalidInput, path.to_string())),
        }
    }

    fn is_symlink(&self, path: &str) -> bool {
        matches!(self.get(&self.resolve(path, false)), Some(Node::Link(_)))
    }

    fn canonicalize(&self, path: &str) -> Result<String, io::Error> {
        let p = self.resolve(path, true);
        if self.get(&p).is_some() {
            Ok(p)
        } else {
            Err(not_found(path))
        }
    }

    fn copy(&self, from: &str, to: &str) -> Result<u64, io::Error> {
        let c = self.read_to_string(from)?;
        self.write(to, &c)?;
        Ok(c.len() as u64)
    }

    fn copy_dir(&self, from: &str, to: &str) -> Result<(), io::Error> {
        let src = self.resolve(from, true);
        let dst = normalize(to);
        for (k, v) in self.subtree(&src) {
            let nk = format!("{dst}{}", &k[src.len()..]);
            self.nodes.borrow_mut().insert(nk, v);
        }
        Ok(())
    }

    fn copy_any(&self, from: &str, to: &str) -> Result<(), io::Error> {
        if self.is_dir(from) {
            self.copy_dir(from, to)
        } else {
            self.copy(from, to).map(|_| ())
        }
    }

    fn remove_any(&self, path: &str) -> Result<(), io::Error> {
        if self.is_dir(path) && !self.is_symlink(path) {
            self.remove_dir_all(path)
        } else {
            self.remove_file(path)
        }
    }

    fn ensure_parent(&self, path: &str) -> Result<(), io::Error> {
        self.create_dir_all(&parent_of(&normalize(path)))
    }

    fn move_path(&self, from: &str, to: &str) -> Result<(), io::Error> {
        self.rename(from, to)
    }
}

fn settings() -> Settings {
    Settings::defaults_for(None, Some("/home/u"))
}

fn value_of(out: &rsenv::application::services::environment::EnvOutput, key: &str) -> Option<String> {
    out.variables.entries().iter().find(|(k, _)| k == key).map(|(_, v)| v.clone())
}

#[test]
fn build_merges_hierarchy_child_wins() {
    let fs = MemFs::new();
    fs.file("/p/envs/base.env", "export DB_HOST=localhost\nexport DB_PORT=5432\nexport LOG_LEVEL=info\n");
    fs.file("/p/envs/cloud.env", "# rsenv: base.env\nexport DB_HOST=rds.aws.com\n");
    fs.file("/p/envs/prod.env", "# rsenv: cloud.env\nexport LOG_LEVEL=error\n");
    let svc = EnvironmentService::new(fs);
    let out = svc.build("/p/envs/prod.env").expect("build");
    assert_eq!(out.files.len(), 3);
    assert_eq!(out.files[0].path, "/p/envs/prod.env");
    assert_eq!(value_of(&out, "DB_HOST").as_deref(), Some("rds.aws.com"));
    assert_eq!(value_of(&out, "DB_PORT").as_deref(), Some("5432"));
    assert_eq!(value_of(&out, "LOG_LEVEL").as_deref(), Some("error"));
    assert_eq!(out.variables.entries().len(), 3);
}

#[test]
fn build_reports_missing_parent() {
    let fs = MemFs::new();
    fs.file("/p/envs/child.env", "# rsenv: missing.env\nexport A=1\n");
    let svc = EnvironmentService::new(fs);
    assert!(svc.build("/p/envs/child.env").is_err());
    assert!(svc.build("/p/envs/nothing.env").is_err());
}

#[test]
fn build_visits_a_shared_parent_once() {
    let fs = MemFs::new();
    fs.file("/e/root.env", "export R=root\nexport X=root\n");
    fs.file("/e/a.env", "# rsenv: root.env\nexport X=a\n");
    fs.file("/e/b.env", "# rsenv: root.env\nexport X=b\n");
    fs.file("/e/leaf.env", "# rsenv: a.env b.env\nexport L=1\n");
    let svc = EnvironmentService::new(fs);
    let out = svc.build("/e/leaf.env").expect("build");
    assert_eq!(out.files.len(), 4);
    assert_eq!(value_of(&out, "R").as_deref(), Some("root"));
    assert_eq!(value_of(&out, "L").as_deref(), Some("1"));
}

#[test]
fn link_and_unlink_edit_the_directive() {
    let fs = MemFs::new();
    fs.file("/e/parent.env", "export P=1\n");
    fs.file("/e/child.env", "export C=1\n");
    let svc = EnvironmentService::new(fs);
    svc.link("/e/parent.env", "/e/child.env").expect("link");
    let linked = svc.fs.read_to_string("/e/child.env").unwrap();
    assert_eq!(linked, "# rsenv: parent.env\nexport C=1\n");
    let out = svc.build("/e/child.env").expect("build");
    assert_eq!(out.files.len(), 2);
    svc.unlink("/e/child.env").expect("unlink");
    let unlinked = svc.fs.read_to_string("/e/child.env").unwrap();
    assert_eq!(unlinked, "# rsenv:\nexport C=1\n");
    assert_eq!(svc.build("/e/child.env").expect("build").files.len(), 1);
}

#[test]
fn link_chain_links_each_file_to_the_one_before() {
    let fs = MemFs::new();
    fs.file("/e/a.env", "# rsenv: other.env\nexport A=1\n");
    fs.file("/e/b.env", "export B=1\n");
    fs.file("/e/c.env", "export C=1\n");
    let svc = EnvironmentService::new(fs);
    let files = vec!["/e/a.env".to_string(), "/e/b.env".to_string(), "/e/c.env".to_string()];
    svc.link_chain(&files).expect("chain");
    assert_eq!(svc.fs.read_to_string("/e/a.env").unwrap(), "# rsenv:\nexport A=1\n");
    assert_eq!(svc.fs.read_to_string("/e/b.env").unwrap(), "# rsenv: a.env\nexport B=1\n");
    assert_eq!(svc.fs.read_to_string("/e/c.env").unwrap(), "# rsenv: b.env\nexport C=1\n");
    let out = svc.build("/e/c.env").expect("build");
    assert_eq!(out.files.len(), 3);
}

#[test]
fn parent_reference_falls_back_to_the_file_name() {
    let fs = MemFs::new();
    fs.file("/e/sub/parent.env", "export P=1\n");
    let svc = EnvironmentService::new(fs);
    assert_eq!(svc.build_parent_reference("/e/sub/parent.env", ""), "parent.env");
    assert_eq!(svc.build_parent_reference("/e/missing.env", "/e/child.env"), "missing.env");
    assert_eq!(svc.build_parent_reference("/e/sub/parent.env", "/e/child.env"), "sub/parent.env");
}

#[test]
fn empty_link_chain_succeeds() {
    let svc = EnvironmentService::new(MemFs::new());
    assert!(svc.link_chain(&[]).is_ok());
}

#[test]
fn link_refuses_several_directives() {
    let fs = MemFs::new();
    fs.file("/e/p.env", "export P=1\n");
    fs.file("/e/c.env", "# rsenv: x.env\n# rsenv: y.env\nexport C=1\n");
    let svc = EnvironmentService::new(fs);
    assert!(svc.link("/e/p.env", "/e/c.env").is_err());
    assert!(svc.unlink("/e/c.env").is_err());
}

fn init_project(fs: MemFs) -> VaultService<MemFs> {
    fs.dir("/home/u/.rsenv/vaults");
    fs.file("/work/app/.envrc", "export FOO=1\n");
    fs.file("/work/app/config/secrets.yaml", "password: hunter2\n");
    VaultService::new(fs, settings(), "/home/u".to_string())
}

#[test]
fn init_creates_vault_and_links_envrc() {
    let svc = init_project(MemFs::new());
    let vault = svc.init("/work/app", false, 0xa1b2c3d4).expect("init");
    assert_eq!(vault.sentinel_id, "app-a1b2c3d4");
    assert_eq!(vault.path, "/home/u/.rsenv/vaults/app-a1b2c3d4");
    assert!(svc.fs.is_symlink("/work/app/.envrc"));
    let dot = svc.fs.read_to_string("/work/app/.envrc").unwrap();
    assert!(dot.contains("export FOO=1"));
    assert!(dot.contains("app-a1b2c3d4"));
    for sub in ["envs", "guarded", "swap"] {
        assert!(svc.fs.is_dir(&format!("{}/{sub}", vault.path)), "{sub} missing");
    }
    assert!(svc.fs.is_file(&format!("{}/envs/none.env", vault.path)));
    let got = svc.get("/work/app").expect("get").expect("a vault");
    assert_eq!(got.sentinel_id, vault.sentinel_id);
    assert_eq!(got.path, vault.path);
    let again = svc.init("/work/app", false, 0xffffffff).expect("init again");
    assert_eq!(again.sentinel_id, "app-a1b2c3d4");
}

#[test]
fn guard_then_unguard_restores_the_file() {
    let svc = init_project(MemFs::new());
    let vault = svc.init("/work/app", false, 0xa1b2c3d4).expect("init");
    let guarded = svc.guard("/work/app/config/secrets.yaml", false).expect("guard");
    assert!(!guarded.encrypted);
    assert_eq!(guarded.vault_path, format!("{}/guarded/config/secrets.yaml", vault.path));
    assert!(svc.fs.is_symlink("/work/app/config/secrets.yaml"));
    assert_eq!(svc.fs.read_to_string("/work/app/config/secrets.yaml").unwrap(), "password: hunter2\n");
    match svc.guard("/work/app/config/secrets.yaml", false) {
        Err(ApplicationError::AlreadyGuarded(p)) => assert_eq!(p, "/work/app/config/secrets.yaml"),
        other => panic!("expected AlreadyGuarded, got {other:?}"),
    }
    svc.unguard("/work/app/config/secrets.yaml").expect("unguard");
    assert!(!svc.fs.is_symlink("/work/app/config/secrets.yaml"));
    assert_eq!(svc.fs.read_to_string("/work/app/config/secrets.yaml").unwrap(), "password: hunter2\n");
    assert!(!svc.fs.path_exists(&guarded.vault_path));
}

#[test]
fn guard_neutralizes_dotfiles_in_the_vault() {
    let svc = init_project(MemFs::new());
    svc.fs.file("/work/app/.gitignore", "target\n");
    let vault = svc.init("/work/app", true, 0xa1b2c3d4).expect("init");
    let g = svc.guard("/work/app/.gitignore", true).expect("guard");
    assert_eq!(g.vault_path, format!("{}/guarded/dot.gitignore", vault.path));
    assert_eq!(svc.fs.read_link("/work/app/.gitignore").unwrap(), g.vault_path);
}

#[test]
fn guard_without_vault_is_refused() {
    let fs = MemFs::new();
    fs.file("/work/other/file.txt", "x");
    let svc = VaultService::new(fs, settings(), "/home/u".to_string());
    assert!(matches!(svc.guard("/work/other/file.txt", false), Err(ApplicationError::VaultNotInitialized(_))));
    assert!(svc.unguard("/work/other/file.txt").is_err());
}

#[test]
fn find_project_dir_walks_up_to_the_envrc_link() {
    let svc = init_project(MemFs::new());
    svc.init("/work/app", false, 0xa1b2c3d4).expect("init");
    assert_eq!(svc.find_project_dir("/work/app/config/secrets.yaml").unwrap(), "/work/app");
    assert!(matches!(svc.find_project_dir("/elsewhere/x"), Err(ApplicationError::VaultNotInitialized(p)) if p == "/elsewhere/x"));
}

#[test]
fn swap_init_moves_project_file_into_vault() {
    let svc = init_project(MemFs::new());
    svc.fs.file("/work/app/docker-compose.yml", "official\n");
    let vault = svc.init("/work/app", false, 0xa1b2c3d4).expect("init");
    let swap = SwapService::new(svc);
    let files = vec!["docker-compose.yml".to_string()];
    let done = swap.swap_init("/work/app", &files).expect("swap init");
    assert_eq!(done.len(), 1);
    assert_eq!(done[0].project_path, "/work/app/docker-compose.yml");
    let fs = &swap.vault_service.fs;
    assert!(!fs.path_exists("/work/app/docker-compose.yml"));
    assert_eq!(fs.read_to_string(&format!("{}/swap/docker-compose.yml", vault.path)).unwrap(), "official\n");
    assert!(swap.swap_init("/work/app", &files).is_err());
}

/// A git that answers from a script and counts commits.
struct GitMock {
    head: RefCell<u32>,
    diff: String,
    calls: RefCell<Vec<Vec<String>>>,
}

fn out(stdout: &str) -> CommandOutput {
    CommandOutput { success: true, code: Some(0), stdout: stdout.to_string(), stderr: String::new() }
}

impl CommandRunner for GitMock {
    fn run(&self, cmd: &str, args: &[String]) -> Result<CommandOutput, io::Error> {
        assert_eq!(cmd, "git");
        self.calls.borrow_mut().push(args.to_vec());
        let rest: Vec<&str> = args[2..].iter().map(|a| a.as_str()).collect();
        Ok(match rest.as_slice() {
            ["rev-parse", "--is-inside-work-tree"] => out("true\n"),
            ["rev-parse", "--abbrev-ref", "HEAD"] => out("main\n"),
            ["rev-parse", "HEAD"] => out(&format!("{:040x}\n", *self.head.borrow())),
            ["status", "--porcelain"] => out(""),
            ["diff", "--cached", "--name-status", "--relative"] => out(&self.diff),
            ["commit", "-m", _, "--", "."] => {
                *self.head.borrow_mut() += 1;
                out("")
            }
            _ => out(""),
        })
    }

    fn run_with_stdin(&self, _cmd: &str, _args: &[String], _stdin: &str) -> Result<CommandOutput, io::Error> {
        Ok(out(""))
    }

    fn run_interactive(&self, _cmd: &str, _args: &[String]) -> Result<bool, io::Error> {
        *self.head.borrow_mut() += 1;
        Ok(true)
    }
}

fn commit_service(diff: &str) -> VaultCommitService<MemFs, GitMock> {
    let svc = init_project(MemFs::new());
    svc.init("/work/app", false, 0xa1b2c3d4).expect("init");
    let git = GitMock { head: RefCell::new(7), diff: diff.to_string(), calls: RefCell::new(Vec::new()) };
    let sops = SopsService::new(MemFs::new(), git, settings());
    VaultCommitService::new(SwapService::new(svc), sops, false)
}

#[test]
fn vault_commit_records_the_staged_changes() {
    let service = commit_service("M\tenvs/local.env.0011aabb.enc\nA\tswap/notes.md\n");
    let opts = CommitOptions { auto: true, push: false, no_encrypt: false };
    let outcome = service.commit("/work/app", &opts).expect("commit");
    assert_eq!(outcome.staged.len(), 2);
    assert_eq!(outcome.staged[1].path, "swap/notes.md");
    assert_eq!(outcome.commit, Some(format!("{:040x}", 8)));
    assert!(!outcome.pushed);
    assert!(outcome.encrypted.is_empty());
    assert!(matches!(outcome.project_commit, ProjectCommit::Commit { ref branch, dirty: false, .. } if branch == "main"));
    let calls = service.sops.cmd.calls.borrow();
    let commit_call = calls.iter().find(|c| c.get(2).map(|s| s.as_str()) == Some("commit")).expect("a commit");
    assert_eq!(commit_call[1], "/home/u/.rsenv/vaults/app-a1b2c3d4");
    assert!(commit_call[4].starts_with("vault(app): checkpoint @ 0000000"));
    assert_eq!(&commit_call[5..], &["--".to_string(), ".".to_string()]);
}

#[test]
fn vault_commit_refuses_plaintext_secrets() {
    let service = commit_service("A\tguarded/id_rsa\n");
    let opts = CommitOptions { auto: true, push: true, no_encrypt: true };
    match service.commit("/work/app", &opts) {
        Err(ApplicationError::UnencryptedVaultSecrets { paths }) => assert_eq!(paths, vec!["guarded/id_rsa".to_string()]),
        other => panic!("expected a refusal, got {other:?}"),
    }
}

#[test]
fn vault_commit_with_nothing_staged_makes_no_commit() {
    let service = commit_service("");
    let opts = CommitOptions { auto: true, push: true, no_encrypt: false };
    let outcome = service.commit("/work/app", &opts).expect("commit");
    assert!(outcome.staged.is_empty());
    assert_eq!(outcome.commit, None);
    assert!(!outcome.pushed);
}
