use rsenv::application::envrc::{
    dot_envrc_content, marker_added, marker_removed, parse_rsenv_metadata, section_deleted,
    source_dir_updated, vars_section_content,
};
use rsenv::application::services::environment::{
    backup_name, count_rsenv_directives, default_env_content, is_backup, linked_content,
    unlinked_content,
};
use rsenv::application::services::gitignore::{
    compute_diff, extract_managed_patterns, gitignore_file_content, patterns_from_config,
    remove_managed_section,
};
use rsenv::application::services::sops::{
    decrypt_output_path, enc_plaintext_path, encryption_key, sops_decrypt_args, sops_encrypt_args,
};
use rsenv::application::services::swap::{
    get_backup_path, get_sentinel_path, is_inside_special_dir, sentinel_base, sentinel_host,
};
use rsenv::cli::error::CliError;
use rsenv::cli::hook::{check_install, check_remove, is_rsenv_hook, PRE_COMMIT_HOOK};
use rsenv::config::SopsConfig;
use rsenv::domain::arena::{NodeData, TreeArena};
use rsenv::domain::entities::EnvFile;

fn s(x: &str) -> String {
    x.to_string()
}

#[test]
fn config_patterns_are_sorted_stars_and_names() {
    let mut sops = SopsConfig::default();
    sops.file_names_enc = vec![s("dot_pypirc")];
    assert_eq!(patterns_from_config(&sops), vec![s("*.env"), s("*.envrc"), s("dot_pypirc")]);
}

#[test]
fn rewritten_gitignore_reads_back_its_patterns() {
    let patterns = vec![s("*.env"), s("*.envrc")];
    let content = gitignore_file_content("node_modules\n", &patterns, "global config", "2024-01-01T00:00:00");
    assert_eq!(extract_managed_patterns(&content), patterns);
    assert!(content.starts_with("node_modules\n\n# rsenv-managed start\n"));
    assert!(content.ends_with("# rsenv-managed end"));
    assert_eq!(remove_managed_section(&content), "node_modules\n\n");
    let again = gitignore_file_content(&content, &vec![s("*.yaml")], "vault config", "later");
    assert_eq!(extract_managed_patterns(&again), vec![s("*.yaml")]);
    assert_eq!(again.matches("# rsenv-managed start").count(), 1);
}

#[test]
fn gitignore_of_an_empty_file_keeps_encrypted_files_committable() {
    let content = gitignore_file_content("", &vec![s("*.env")], "global config", "now");
    assert!(content.ends_with("# Encrypted files are safe to commit\n!*.enc"));
    assert_eq!(extract_managed_patterns(&content), vec![s("*.env")]);
    assert_eq!(gitignore_file_content("", &vec![], "global config", "now"), "");
}

#[test]
fn gitignore_diff_lists_missing_and_extra_patterns() {
    let d = compute_diff(&vec![s("*.env"), s("*.yaml")], &vec![s("*.env"), s("old")]);
    assert_eq!(d.to_add, vec![s("*.yaml")]);
    assert_eq!(d.to_remove, vec![s("old")]);
    assert!(!d.in_sync);
    assert!(compute_diff(&vec![s("a")], &vec![s("a")]).in_sync);
}

#[test]
fn swapped_marker_is_added_once_and_removed() {
    let added = marker_added("export A=1");
    assert_eq!(added, "export A=1\nexport RSENV_SWAPPED=1\n");
    assert_eq!(marker_added(&added), added);
    assert_eq!(marker_removed(&added), marker_removed("export A=1"));
    assert!(!marker_removed(&added).contains("RSENV_SWAPPED"));
}

#[test]
fn rsenv_section_is_injected_replaced_and_deleted() {
    let original = "export PATH=$PATH:bin\n";
    let with = dot_envrc_content(original, "export A=1");
    assert!(with.starts_with(original));
    assert!(with.contains("export A=1\n"));
    let replaced = dot_envrc_content(&with, "export B=2\n");
    assert!(replaced.contains("export B=2\n"));
    assert!(!replaced.contains("export A=1"));
    assert_eq!(section_deleted(&with), format!("{original}\n"));
}

#[test]
fn rsenv_metadata_is_read_and_source_dir_updated() {
    let content = "#------------------------------- rsenv start --------------------------------\n\
                   # config.relative = true\n\
                   # state.sentinel = 'app-a1b2c3d4'\n\
                   # state.sourceDir = '$HOME/work/app'\n\
                   #-------------------------------- rsenv end ---------------------------------\n";
    let meta = parse_rsenv_metadata(content).expect("metadata");
    assert!(meta.relative);
    assert_eq!(meta.sentinel, "app-a1b2c3d4");
    assert_eq!(meta.source_dir, "$HOME/work/app");
    let moved = source_dir_updated(content, "/new/place");
    assert_eq!(parse_rsenv_metadata(&moved).expect("metadata").source_dir, "/new/place");
}

#[test]
fn vars_section_needs_the_rsenv_section() {
    assert!(vars_section_content("export A=1\n", "export B=2\n").is_none());
}

#[test]
fn default_env_files_link_to_none() {
    assert_eq!(
        default_env_content("none"),
        "################################## none.env ##################################\nexport RUN_ENV=none\n"
    );
    assert_eq!(
        default_env_content("local"),
        "################################## local.env ##################################\n# rsenv: none.env\nexport RUN_ENV=local\n"
    );
}

#[test]
fn backups_are_named_and_recognised() {
    assert_eq!(backup_name("/v/envs/local.env"), "/v/envs/local.bkp.env");
    assert_eq!(backup_name("/v/NOTES"), "/v/NOTES.bkp");
    assert!(is_backup("/v/envs/local.bkp.env"));
    assert!(is_backup("/v/NOTES.bkp"));
    assert!(is_backup("/v/envs/local.env.bkp"));
    assert!(!is_backup("/v/envs/local.env"));
}

#[test]
fn directives_are_counted_and_relinked() {
    assert_eq!(count_rsenv_directives("# rsenv: a.env\nexport A=1\n# rsenv: b.env\n"), 2);
    assert_eq!(linked_content("export A=1\n", "p.env"), Ok(s("# rsenv: p.env\nexport A=1\n")));
    assert_eq!(linked_content("# rsenv: old.env\nexport A=1\n", "p.env"), Ok(s("# rsenv: p.env\nexport A=1\n")));
    assert_eq!(linked_content("# rsenv: a\n# rsenv: b\n", "p.env"), Err(2));
    assert_eq!(unlinked_content("# rsenv: old.env\nexport A=1\n"), Ok(Some(s("# rsenv:\nexport A=1\n"))));
    assert_eq!(unlinked_content("export A=1\n"), Ok(None));
}

#[test]
fn env_file_parse_reads_parents_and_exports() {
    let f = EnvFile::parse("# rsenv: base.env ../up.env\nexport A=1\nexport B=\"two\" # note\nnot an export\n", s("/e/x/child.env"))
        .expect("parse");
    assert_eq!(f.parents, vec![s("/e/x/base.env"), s("/e/x/../up.env")]);
    let vars = f.variables.entries();
    assert!(vars.contains(&(s("A"), s("1"))));
    assert!(vars.contains(&(s("B"), s("two"))));
    assert_eq!(vars.len(), 2);
}

#[test]
fn sops_arguments_and_key_choice() {
    let mut sops = SopsConfig::default();
    assert_eq!(encryption_key(&sops), None);
    sops.gpg_key = Some(s("FPR"));
    assert_eq!(encryption_key(&sops), Some((s("--pgp"), s("FPR"))));
    assert_eq!(
        sops_encrypt_args("--pgp", "FPR", "/v/a.env", "/v/a.env.0011aabb.enc"),
        vec![s("-e"), s("--pgp"), s("FPR"), s("--input-type"), s("dotenv"), s("--output-type"), s("dotenv"), s("--output"), s("/v/a.env.0011aabb.enc"), s("/v/a.env")]
    );
    assert_eq!(sops_decrypt_args("/v/k.json.enc", "/v/k.json"), vec![s("-d"), s("--output"), s("/v/k.json"), s("/v/k.json.enc")]);
    assert_eq!(decrypt_output_path("/v/a.env.0011aabb.enc"), "/v/a.env");
    assert_eq!(decrypt_output_path("/v/a.env.enc"), "/v/a.env");
    assert_eq!(enc_plaintext_path("/v/sub/a.env.0011aabb.enc", "/v"), Some(s("/v/sub/a.env")));
}

#[test]
fn sentinel_and_backup_names() {
    let sentinel = get_sentinel_path("/v/swap", "conf/app.yml", "box");
    assert_eq!(sentinel, "/v/swap/conf/app.yml.box.rsenv_active");
    assert_eq!(get_backup_path("/v/swap", "conf/app.yml"), "/v/swap/conf/app.yml.rsenv_original");
    assert_eq!(sentinel_host("app.yml.box.rsenv_active", "app.yml"), Some(s("box")));
    assert_eq!(sentinel_base("app.yml.box.rsenv_active"), Some(s("app.yml")));
    assert_eq!(sentinel_host("app.yml.rsenv_original", "app.yml"), None);
    assert!(is_inside_special_dir("/v/swap/dir.box.rsenv_active/inner.txt"));
    assert!(!is_inside_special_dir("/v/swap/dir/inner.txt"));
}

#[test]
fn arena_tree_leaves_and_depth() {
    let mut t = TreeArena::new();
    let node = |p: &str| NodeData { base_path: s("/e"), file_path: s(p) };
    let root = t.insert_node(node("/e/root.env"), None);
    let a = t.insert_node(node("/e/a.env"), Some(root));
    let _b = t.insert_node(node("/e/b.env"), Some(root));
    let _c = t.insert_node(node("/e/c.env"), Some(a));
    assert_eq!(t.root(), Some(root));
    assert_eq!(t.node_count(), 4);
    assert_eq!(t.depth(), 3);
    assert_eq!(t.leaf_nodes(), vec![s("/e/c.env"), s("/e/b.env")]);
    assert_eq!(t.preorder().len(), 4);
    assert_eq!(t.preorder()[0], root);
    assert_eq!(*t.postorder().last().unwrap(), root);
}

#[test]
fn linking_then_parsing_names_the_parent() {
    let linked = linked_content("export A=1\n", "p.env").expect("one directive at most");
    let f = EnvFile::parse(&linked, s("/e/child.env")).expect("parse");
    assert_eq!(f.parents, vec![s("/e/p.env")]);
    let relinked = linked_content(&linked, "q.env").expect("one directive");
    assert_eq!(EnvFile::parse(&relinked, s("/e/child.env")).expect("parse").parents, vec![s("/e/q.env")]);
    let unlinked = unlinked_content(&relinked).expect("one directive").expect("changed");
    assert!(EnvFile::parse(&unlinked, s("/e/child.env")).expect("parse").parents.is_empty());
}

#[test]
fn hook_install_and_remove_rules() {
    assert!(is_rsenv_hook(PRE_COMMIT_HOOK));
    assert!(!is_rsenv_hook("#!/bin/sh\nmake lint\n"));
    assert!(check_install("/v", true, "/v/.git/hooks/pre-commit", false, false).is_ok());
    assert!(check_install("/v", true, "/v/.git/hooks/pre-commit", true, true).is_ok());
    assert!(matches!(check_install("/v", true, "/v/.git/hooks/pre-commit", true, false), Err(CliError::Usage(_))));
    assert!(matches!(check_install("/v", false, "/v/.git/hooks/pre-commit", false, true), Err(CliError::Usage(m)) if m == "Vault is not a git repository: /v"));
    assert!(matches!(check_remove("/h", None), Ok(false)));
    assert!(matches!(check_remove("/h", Some(PRE_COMMIT_HOOK)), Ok(true)));
    assert!(matches!(check_remove("/h", Some("echo hi")), Err(CliError::Usage(_))));
}
