use rsenv::config::{RawSettings, RawSopsConfig, Settings, SopsConfig};

fn s(x: &str) -> String {
    x.to_string()
}

#[test]
fn given_default_sops_config_when_created_then_has_expected_extensions() {
    let sops = SopsConfig::default();
    assert!(sops.file_extensions_enc.contains(&"env".to_string()));
    assert!(sops.file_extensions_dec.contains(&"enc".to_string()));
}

#[test]
fn given_tilde_in_base_dir_when_expand_paths_then_expands_to_home() {
    let mut settings = Settings {
        base_dir: s("~/.rsenv"),
        editor: s("~/bin/myeditor"),
        sops: SopsConfig::default(),
    };
    settings.expand_paths();
    let home = directories::BaseDirs::new().expect("home should be known").home_dir().to_string_lossy().into_owned();
    assert!(settings.base_dir.starts_with(&home), "base_dir should start with home dir: {}", settings.base_dir);
    assert!(!settings.base_dir.contains('~'), "base_dir should not contain tilde: {}", settings.base_dir);
    assert!(settings.editor.starts_with(&home), "editor should start with home dir: {}", settings.editor);
}

#[test]
fn given_env_var_in_path_when_expand_paths_then_expands_variable() {
    let mut settings = Settings {
        base_dir: s("$HOME/.rsenv"),
        editor: s("${HOME}/bin/myeditor"),
        sops: SopsConfig::default(),
    };
    settings.expand_paths();
    let home = directories::BaseDirs::new().expect("home should be known").home_dir().to_string_lossy().into_owned();
    assert!(settings.base_dir.starts_with(&home), "base_dir should expand $HOME");
    assert!(settings.editor.starts_with(&home), "editor should expand ${{HOME}}");
}

#[test]
fn test_merge_array_union() {
    let base = vec![s("a"), s("b")];
    let overlay = vec![s("c")];
    let result = SopsConfig::merge_array(&base, &overlay);
    assert!(result.contains(&s("a")));
    assert!(result.contains(&s("b")));
    assert!(result.contains(&s("c")));
    assert_eq!(result.len(), 3);
}

#[test]
fn test_merge_array_negation() {
    let base = vec![s("a"), s("b")];
    let overlay = vec![s("!a"), s("c")];
    let result = SopsConfig::merge_array(&base, &overlay);
    assert!(!result.contains(&s("a")), "a should be removed by !a");
    assert!(result.contains(&s("b")));
    assert!(result.contains(&s("c")));
    assert_eq!(result.len(), 2);
}

#[test]
fn test_merge_array_negation_nonexistent() {
    let base = vec![s("a"), s("b")];
    let overlay = vec![s("!x")];
    let result = SopsConfig::merge_array(&base, &overlay);
    assert!(result.contains(&s("a")));
    assert!(result.contains(&s("b")));
    assert_eq!(result.len(), 2);
}

#[test]
fn test_merge_array_empty_base() {
    let base: Vec<String> = vec![];
    let overlay = vec![s("a")];
    let result = SopsConfig::merge_array(&base, &overlay);
    assert!(result.contains(&s("a")));
    assert_eq!(result.len(), 1);
}

#[test]
fn test_merge_array_empty_overlay() {
    let base = vec![s("a")];
    let overlay: Vec<String> = vec![];
    let result = SopsConfig::merge_array(&base, &overlay);
    assert!(result.contains(&s("a")));
    assert_eq!(result.len(), 1);
}

#[test]
fn test_merge_array_duplicates() {
    let base = vec![s("a"), s("b")];
    let overlay = vec![s("a"), s("c")];
    let result = SopsConfig::merge_array(&base, &overlay);
    assert!(result.contains(&s("a")));
    assert!(result.contains(&s("b")));
    assert!(result.contains(&s("c")));
    assert_eq!(result.len(), 3);
}

#[test]
fn merge_array_result_is_sorted() {
    let base = vec![s("z"), s("b")];
    let overlay = vec![s("m"), s("a")];
    assert_eq!(SopsConfig::merge_array(&base, &overlay), vec![s("a"), s("b"), s("m"), s("z")]);
}

#[test]
fn test_merge_sops_config() {
    let base = SopsConfig {
        gpg_key: Some(s("base-key")),
        age_key: None,
        file_extensions_enc: vec![s("env"), s("envrc")],
        file_names_enc: vec![s("dot_pypirc")],
        file_extensions_dec: vec![s("enc")],
        file_names_dec: vec![],
    };
    let overlay = RawSopsConfig {
        gpg_key: None,
        age_key: Some(s("overlay-age")),
        file_extensions_enc: Some(vec![s("yaml"), s("!env")]),
        file_names_enc: Some(vec![s("secrets.txt")]),
        file_extensions_dec: None,
        file_names_dec: None,
    };
    let result = base.merge(&overlay);
    assert_eq!(result.gpg_key, Some(s("base-key")));
    assert_eq!(result.age_key, Some(s("overlay-age")));
    assert!(!result.file_extensions_enc.contains(&s("env")));
    assert!(result.file_extensions_enc.contains(&s("envrc")));
    assert!(result.file_extensions_enc.contains(&s("yaml")));
    assert_eq!(result.file_extensions_enc.len(), 2);
    assert!(result.file_names_enc.contains(&s("dot_pypirc")));
    assert!(result.file_names_enc.contains(&s("secrets.txt")));
    assert_eq!(result.file_names_enc.len(), 2);
    assert_eq!(result.file_extensions_dec, vec![s("enc")]);
}

#[test]
fn test_apply_global_replaces_arrays() {
    let base = SopsConfig {
        gpg_key: Some(s("base-key")),
        age_key: None,
        file_extensions_enc: vec![s("env"), s("envrc")],
        file_names_enc: vec![s("dot_pypirc")],
        file_extensions_dec: vec![s("enc")],
        file_names_dec: vec![],
    };
    let global = RawSopsConfig {
        gpg_key: None,
        age_key: Some(s("global-age")),
        file_extensions_enc: Some(vec![s("yaml"), s("json")]),
        file_names_enc: Some(vec![s("secrets.txt")]),
        file_extensions_dec: None,
        file_names_dec: None,
    };
    let result = base.apply_global(&global);
    assert_eq!(result.gpg_key, Some(s("base-key")));
    assert_eq!(result.age_key, Some(s("global-age")));
    assert_eq!(result.file_extensions_enc, vec![s("yaml"), s("json")], "Global should REPLACE base file_extensions_enc");
    assert_eq!(result.file_names_enc, vec![s("secrets.txt")], "Global should REPLACE base file_names_enc");
    assert_eq!(result.file_extensions_dec, vec![s("enc")]);
    assert!(result.file_names_dec.is_empty());
}

#[test]
fn test_apply_global_keeps_base_when_not_specified() {
    let base = SopsConfig {
        gpg_key: None,
        age_key: None,
        file_extensions_enc: vec![s("env"), s("envrc")],
        file_names_enc: vec![s("dot_pypirc")],
        file_extensions_dec: vec![s("enc")],
        file_names_dec: vec![],
    };
    let global = RawSopsConfig {
        gpg_key: Some(s("global-gpg")),
        age_key: None,
        file_extensions_enc: None,
        file_names_enc: None,
        file_extensions_dec: None,
        file_names_dec: None,
    };
    let result = base.apply_global(&global);
    assert_eq!(result.gpg_key, Some(s("global-gpg")));
    assert_eq!(result.file_extensions_enc, vec![s("env"), s("envrc")], "Base arrays should be preserved when global doesn't specify");
}

#[test]
fn vaults_dir_is_under_base_dir() {
    let settings = Settings { base_dir: s("/home/u/.rsenv"), editor: s("vim"), sops: SopsConfig::default() };
    assert_eq!(settings.vaults_dir(), "/home/u/.rsenv/vaults");
}

#[test]
fn given_no_config_when_loading_then_uses_defaults() {
    let settings = Settings::load(Settings::defaults(None), None, None, &RawSettings::default());
    assert!(settings.base_dir.contains(".rsenv"));
    assert!(!settings.base_dir.contains("vaults"));
    assert!(!settings.editor.is_empty());
}

#[test]
fn defaults_for_given_home_and_editor() {
    let d = Settings::defaults_for(Some(s("nano")), Some("/home/u"));
    assert_eq!(d.base_dir, "/home/u/.rsenv");
    assert_eq!(d.editor, "nano");
    let d = Settings::defaults_for(None, None);
    assert_eq!(d.base_dir, "~/.rsenv");
    assert_eq!(d.editor, "vim");
}

fn raw_sops_with(ext_enc: Option<Vec<String>>) -> RawSopsConfig {
    let mut r = RawSopsConfig::default();
    r.file_extensions_enc = ext_enc;
    r
}

#[test]
fn layers_apply_in_precedence_order() {
    let defaults = Settings::defaults_for(None, Some("/home/u"));
    let mut global = RawSettings::default();
    global.editor = Some(s("emacs"));
    global.sops = raw_sops_with(Some(vec![s("yaml"), s("env")]));
    let mut vault = RawSettings::default();
    vault.sops = raw_sops_with(Some(vec![s("!env"), s("json")]));
    let mut env = RawSettings::default();
    env.base_dir = Some(s("/srv/rsenv"));
    let r = Settings::load(defaults, Some(&global), Some(&vault), &env);
    assert_eq!(r.base_dir, "/srv/rsenv");
    assert_eq!(r.editor, "emacs");
    assert_eq!(r.sops.file_extensions_enc, vec![s("json"), s("yaml")]);
    assert_eq!(r.sops.file_extensions_dec, vec![s("enc")]);
}

#[test]
fn global_only_replaces_defaults_and_vault_only_is_none_without_file() {
    let mut global = RawSettings::default();
    global.sops = raw_sops_with(Some(vec![s("txt")]));
    let g = Settings::load_global_only(Settings::defaults_for(None, Some("/h")), Some(&global));
    assert_eq!(g.sops.file_extensions_enc, vec![s("txt")]);
    assert!(Settings::load_vault_only(Settings::defaults_for(None, Some("/h")), None).is_none());
    let v = Settings::load_vault_only(Settings::defaults_for(None, Some("/h")), Some(&global)).expect("vault config");
    assert_eq!(v.sops.file_extensions_enc, vec![s("txt")]);
}
