use rsenv::application::error::ApplicationError;
use rsenv::application::services::vault_commit::{
    build_message, is_plaintext_secret, parse_staged_changes, reject_plaintext_secrets,
    vault_display_name, ProjectCommit, StagedChange,
};

#[test]
fn given_sentinel_id_with_hex_suffix_when_display_name_then_suffix_stripped() {
    assert_eq!(vault_display_name("rsenv-1f53817c"), "rsenv");
    assert_eq!(vault_display_name("los-cha-8b5d1b22"), "los-cha");
}

#[test]
fn given_sentinel_id_without_hex_suffix_when_display_name_then_unchanged() {
    assert_eq!(vault_display_name("plain"), "plain");
    assert_eq!(vault_display_name("my-project"), "my-project");
}

#[test]
fn given_plaintext_under_guarded_when_checked_then_flagged() {
    assert!(is_plaintext_secret("guarded/id_rsa"));
    assert!(is_plaintext_secret("envs/local.env"));
    assert!(is_plaintext_secret("dot.envrc"));
}

#[test]
fn given_encrypted_or_swap_paths_when_checked_then_allowed() {
    assert!(!is_plaintext_secret("guarded/id_rsa.a1b2c3d4.enc"));
    assert!(!is_plaintext_secret("envs/local.env.f1d89926.enc"));
    assert!(!is_plaintext_secret("swap/thoughts/notes.md"));
}

fn change(status: &str, path: &str) -> StagedChange {
    StagedChange { status: status.to_string(), path: path.to_string() }
}

#[test]
fn reject_plaintext_secrets_names_every_leak() {
    let staged = vec![change("M", "envs/local.env"), change("A", "swap/x"), change("A", "guarded/key")];
    match reject_plaintext_secrets(&staged) {
        Err(ApplicationError::UnencryptedVaultSecrets { paths }) => {
            assert_eq!(paths, vec!["envs/local.env".to_string(), "guarded/key".to_string()]);
        }
        other => panic!("unexpected: {:?}", other),
    }
    assert!(reject_plaintext_secrets(&[change("A", "swap/x")]).is_ok());
    assert!(reject_plaintext_secrets(&[]).is_ok());
}

#[test]
fn project_commit_short_and_describe() {
    let c = ProjectCommit::Commit { sha: "0123456789abcdef".to_string(), branch: "main".to_string(), dirty: true };
    assert_eq!(c.short(), Some("0123456".to_string()));
    assert_eq!(c.describe(), "0123456789abcdef (main, dirty)");
    let u = ProjectCommit::Unborn { branch: "dev".to_string() };
    assert_eq!(u.short(), None);
    assert_eq!(u.describe(), "(no commits yet on dev)");
    assert_eq!(ProjectCommit::NotARepo.describe(), "(not a git repository)");
}

#[test]
fn build_message_records_project_state_and_changes() {
    let c = ProjectCommit::Commit { sha: "abcdef0123".to_string(), branch: "main".to_string(), dirty: false };
    let msg = build_message("rsenv-1f53817c", "/p/rsenv", &c, &[change("M", "envs/a.env.12345678.enc"), change("D", "swap/b")]);
    assert_eq!(
        msg,
        "vault(rsenv): checkpoint @ abcdef0\n\nproject:        /p/rsenv\nproject-commit: abcdef0123 (main)\n\n M envs/a.env.12345678.enc\n D swap/b\n"
    );
    let msg2 = build_message("plain", "/p", &ProjectCommit::NotARepo, &[]);
    assert_eq!(msg2, "vault(plain): checkpoint\n\nproject:        /p\nproject-commit: (not a git repository)\n\n");
}

#[test]
fn staged_changes_take_status_and_last_path() {
    let out = "M\tenvs/local.env\n\nR100\told/name\tnew/name\nbogus\n";
    let changes = parse_staged_changes(out);
    assert_eq!(changes.len(), 2);
    assert_eq!(changes[0].status, "M");
    assert_eq!(changes[0].path, "envs/local.env");
    assert_eq!(changes[1].status, "R100");
    assert_eq!(changes[1].path, "new/name");
}
