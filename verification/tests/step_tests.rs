use rsenv::application::dotfile::{neutralize_path, restore_path};
use rsenv::config::{edited_from_template, truncated_key};
use rsenv::application::services::environment::parent_reference_from;
use rsenv::application::services::gitignore::cleaned_gitignore;
use rsenv::application::services::sops::{encrypt_step, EncryptStep};
use rsenv::application::services::swap::{swap_in_step, swap_out_step, SwapInStep, SwapOutStep};
use rsenv::application::services::vault::{
    envrc_at_init, envrc_at_reconnect, has_project_moved, short_id, EnvrcAtInit, EnvrcAtReconnect,
};

#[test]
fn swap_in_step_decides_per_file() {
    let here = Some("host-a".to_string());
    let other = Some("host-b".to_string());
    assert_eq!(swap_in_step(&here, "host-a", false, false), SwapInStep::AlreadyIn);
    assert_eq!(swap_in_step(&other, "host-a", true, false), SwapInStep::OtherHost);
    assert_eq!(swap_in_step(&None, "host-a", false, false), SwapInStep::NoOverride);
    assert_eq!(swap_in_step(&None, "host-a", true, true), SwapInStep::BareGitignore);
    assert_eq!(swap_in_step(&None, "host-a", true, false), SwapInStep::Move);
}

#[test]
fn swap_out_step_decides_per_file() {
    assert_eq!(swap_out_step(&None, "host-a"), SwapOutStep::NotIn);
    assert_eq!(swap_out_step(&Some("host-a".to_string()), "host-a"), SwapOutStep::Restore);
    assert_eq!(swap_out_step(&Some("host-b".to_string()), "host-a"), SwapOutStep::OtherHost);
}

#[test]
fn init_and_reconnect_decide_on_the_envrc() {
    assert_eq!(envrc_at_init(false, false), EnvrcAtInit::CreateEmpty);
    assert_eq!(envrc_at_init(true, true), EnvrcAtInit::ReplaceLink);
    assert_eq!(envrc_at_init(true, false), EnvrcAtInit::MoveIn);
    assert_eq!(envrc_at_reconnect(false, false, false), EnvrcAtReconnect::Link);
    assert_eq!(envrc_at_reconnect(true, false, false), EnvrcAtReconnect::FileInTheWay);
    assert_eq!(envrc_at_reconnect(true, true, true), EnvrcAtReconnect::AlreadyLinked);
    assert_eq!(envrc_at_reconnect(true, true, false), EnvrcAtReconnect::PointsElsewhere);
}

#[test]
fn a_project_in_its_recorded_place_has_not_moved() {
    assert!(!has_project_moved("/home/u/work/app", "/home/u/work/app", "/home/u"));
    assert!(!has_project_moved("$HOME/work/app", "/home/u/work/app", "/home/u"));
    assert!(has_project_moved("$HOME/work/old", "/home/u/work/app", "/home/u"));
    assert!(has_project_moved("$HOME/work/app", "/home/u/work/app", ""));
}

#[test]
fn parent_reference_from_canonical_paths() {
    let pa = Some("/e/sub/parent.env".to_string());
    let cd = Some("/e".to_string());
    assert_eq!(parent_reference_from("sub/parent.env", "/e/child.env", &pa, &cd), "sub/parent.env");
    assert_eq!(parent_reference_from("/e/sub/parent.env", "/e/child.env", &None, &cd), "parent.env");
    assert_eq!(parent_reference_from("/e/sub/parent.env", "", &pa, &cd), "parent.env");
    assert_eq!(parent_reference_from("/e/sub/parent.env", "/e/x/child.env", &pa, &None), "../sub/parent.env");
}

#[test]
fn paths_are_rewritten_component_by_component() {
    assert_eq!(neutralize_path("a//.b/./c/"), "a/dot.b/c");
    assert_eq!(neutralize_path("/x/.y"), "/x/dot.y");
    assert_eq!(neutralize_path("./.env"), "./dot.env");
    assert_eq!(neutralize_path("/"), "/");
    assert_eq!(restore_path("dot.a//dot.b/"), ".a/.b");
    assert_eq!(restore_path("/dot.a/./b"), "/.a/b");
}

#[test]
fn short_ids_are_eight_lowercase_hex_digits() {
    assert_eq!(short_id(0xa1b2c3d4), "a1b2c3d4");
    assert_eq!(short_id(0), "00000000");
    assert_eq!(short_id(0xff), "000000ff");
    assert_eq!(short_id(u32::MAX), "ffffffff");
}

#[test]
fn encrypt_step_reuses_refuses_or_runs() {
    assert_eq!(encrypt_step(true, false), EncryptStep::Reuse);
    assert_eq!(encrypt_step(true, true), EncryptStep::Reuse);
    assert_eq!(encrypt_step(false, false), EncryptStep::NoKey);
    assert_eq!(encrypt_step(false, true), EncryptStep::Run);
}

#[test]
fn cleaning_twice_changes_nothing_the_second_time() {
    let c = "target\n# rsenv-managed start\n*.env\n# rsenv-managed end\nnode_modules\n";
    let first = cleaned_gitignore(c).expect("managed section removed");
    assert_eq!(first, "target\nnode_modules");
    assert_eq!(cleaned_gitignore(&first), None);
    assert_eq!(cleaned_gitignore("target\n"), None);
}

#[test]
fn keys_are_truncated_for_display() {
    assert_eq!(truncated_key("ABCDEF0123456789XYZ", 16), "ABCDEF0123456789...");
    assert_eq!(truncated_key("short", 16), "short");
    assert!(edited_from_template("a = 2\n", "a = 1"));
    assert!(!edited_from_template("a = 1\n\n", "  a = 1"));
}
