use rsenv::cli::diff_render::{binary_marker, is_binary, render_unified};
use rsenv::cli::editor::is_vim_family;
use rsenv::cli::error::CliError;
use rsenv::cli::pager::{ignore_broken_pipe, resolve_pager};
use rsenv::cli::vimscript::{create_vimscript, resolve_sops_dir};
use rsenv::exitcode;
use rsenv::infrastructure::error::InfraError;
use std::io;

#[test]
fn given_vim_variants_when_checked_then_accepted() {
    for editor in ["vim", "nvim", "gvim", "mvim", "vimdiff", "vi", "view"] {
        assert!(is_vim_family(editor), "{editor} should be accepted");
    }
}

#[test]
fn given_absolute_path_when_checked_then_only_the_program_name_matters() {
    assert!(is_vim_family("/opt/homebrew/bin/nvim"));
    assert!(!is_vim_family("/opt/homebrew/bin/code"));
}

#[test]
fn given_non_vim_editors_when_checked_then_rejected() {
    for editor in ["code", "emacs", "nano", "hx", "subl", ""] {
        assert!(!is_vim_family(editor), "{editor} should be rejected");
    }
}

#[test]
fn vim_family_ignores_case_and_extension() {
    assert!(is_vim_family("C:/tools/GVim.exe"));
    assert!(is_vim_family("/usr/bin/VI"));
}

#[test]
fn given_broken_pipe_when_ignored_then_ok() {
    let err = Err(io::Error::new(io::ErrorKind::BrokenPipe, "pager quit"));
    assert!(ignore_broken_pipe(err).is_ok());
}

#[test]
fn given_other_io_error_when_ignored_then_still_error() {
    let err = Err(io::Error::new(io::ErrorKind::PermissionDenied, "nope"));
    assert!(ignore_broken_pipe(err).is_err());
}

#[test]
fn resolve_pager_trims_and_drops_cat() {
    assert_eq!(resolve_pager(Some("  less -FRX\n".to_string())), Some("less -FRX".to_string()));
    assert_eq!(resolve_pager(Some("cat\n".to_string())), None);
    assert_eq!(resolve_pager(Some("   ".to_string())), None);
    assert_eq!(resolve_pager(None), None);
}

#[test]
fn given_changed_text_when_render_unified_then_emits_header_and_hunk() {
    let old = b"alpha\nbeta\ngamma\n";
    let new = b"alpha\nBETA\ngamma\n";
    let patch = render_unified(old, new, "baseline:notes.md", "notes.md");
    assert!(patch.contains("--- baseline:notes.md"), "patch was: {}", patch);
    assert!(patch.contains("+++ notes.md"), "patch was: {}", patch);
    assert!(patch.contains("-beta"), "patch was: {}", patch);
    assert!(patch.contains("+BETA"), "patch was: {}", patch);
    assert!(patch.contains("alpha"), "patch was: {}", patch);
}

#[test]
fn given_identical_text_when_render_unified_then_emits_nothing() {
    let content = b"same\n";
    let patch = render_unified(content, content, "a", "b");
    assert!(patch.is_empty(), "patch was: {}", patch);
}

#[test]
fn given_binary_bytes_when_render_unified_then_returns_binary_marker() {
    let old: &[u8] = &[0xFF, 0xFE, 0x00, 0x01];
    let new: &[u8] = &[0x00, 0x01, 0x02];
    let patch = render_unified(old, new, "baseline:blob.bin", "blob.bin");
    assert_eq!(patch, "Binary files baseline:blob.bin and blob.bin differ\n");
}

#[test]
fn given_one_binary_side_when_render_unified_then_returns_binary_marker() {
    let old = b"readable text\n";
    let new: &[u8] = &[0x00, 0x01];
    let patch = render_unified(old, new, "a", "b");
    assert_eq!(patch, "Binary files a and b differ\n");
}

#[test]
fn given_added_lines_when_render_unified_then_marks_them_added() {
    let old = b"one\n";
    let new = b"one\ntwo\nthree\n";
    let patch = render_unified(old, new, "a", "b");
    assert!(patch.contains("+two"), "patch was: {}", patch);
    assert!(patch.contains("+three"), "patch was: {}", patch);
}

#[test]
fn binary_probe_stops_after_eight_thousand_bytes() {
    let mut late = vec![b'a'; 8000];
    late.push(0);
    assert!(!is_binary(&late));
    let mut early = vec![b'a'; 7999];
    early.push(0);
    assert!(is_binary(&early));
    assert_eq!(binary_marker("x", "y"), "Binary files x and y differ\n");
}

#[test]
fn exit_codes_follow_sysexits() {
    assert_eq!(CliError::Usage("u".to_string()).exit_code(), exitcode::USAGE);
    assert_eq!(CliError::InvalidArgs("a".to_string()).exit_code(), 64);
    let io_err = InfraError::io("ctx".to_string(), io::Error::new(io::ErrorKind::Other, "x"));
    assert_eq!(CliError::Infra(io_err).exit_code(), exitcode::IOERR);
    let sops = InfraError::Sops { message: "m".to_string(), exit_code: Some(1) };
    assert_eq!(CliError::Infra(sops).exit_code(), exitcode::SOFTWARE);
}

#[test]
fn vimscript_lays_out_columns() {
    let branches = vec![
        vec!["a.env".to_string(), "b.env".to_string()],
        vec![],
        vec!["c.env".to_string()],
    ];
    assert_eq!(
        create_vimscript(&branches),
        "edit a.env\nsplit b.env\nsplit c.env\nwincmd L\n\nwincmd =\n1wincmd w\n"
    );
}

#[test]
fn sops_dir_prefers_global_then_dir_then_vault() {
    assert_eq!(resolve_sops_dir(Some("d".to_string()), true, Some("v"), "/base").unwrap(), "/base");
    assert_eq!(resolve_sops_dir(Some("d".to_string()), false, Some("v"), "/base").unwrap(), "d");
    assert_eq!(resolve_sops_dir(None, false, Some("v"), "/base").unwrap(), "v");
    assert!(matches!(resolve_sops_dir(None, false, None, "/base"), Err(CliError::Usage(_))));
}
