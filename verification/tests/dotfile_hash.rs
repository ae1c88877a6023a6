use rsenv::application::dotfile::{neutralize_name, neutralize_path, restore_name, restore_path};
use rsenv::application::hash::{
    content_hash, encrypted_filename, is_old_enc_format, parse_encrypted_filename,
};

#[test]
fn test_neutralize_restore_roundtrip() {
    let original = ".gitignore";
    let neutralized = neutralize_name(original);
    let restored = restore_name(&neutralized);
    assert_eq!(restored, original);
}

#[test]
fn neutralize_name_prefixes_dotfiles_only() {
    assert_eq!(neutralize_name(".gitignore"), "dot.gitignore");
    assert_eq!(neutralize_name("README.md"), "README.md");
    assert_eq!(restore_name("dot.envrc"), ".envrc");
    assert_eq!(restore_name("notes.txt"), "notes.txt");
}

#[test]
fn neutralize_path_rewrites_every_component() {
    assert_eq!(neutralize_path(".hidden/.secret/file.txt"), "dot.hidden/dot.secret/file.txt");
    assert_eq!(restore_path("dot.hidden/dot.secret/file.txt"), ".hidden/.secret/file.txt");
}

#[test]
fn test_content_hash_deterministic() {
    let hash1 = content_hash(b"hello world");
    let hash2 = content_hash(b"hello world");
    assert_eq!(hash1, hash2);
    assert_eq!(hash1.len(), 8);
}

#[test]
fn test_content_hash_different_content() {
    let hash1 = content_hash(b"hello");
    let hash2 = content_hash(b"world");
    assert_ne!(hash1, hash2);
}

#[test]
fn content_hash_is_first_four_digest_bytes_in_hex() {
    // SHA-256("hello world") = b94d27b9...
    assert_eq!(content_hash(b"hello world"), "b94d27b9");
    // SHA-256("") = e3b0c442...
    assert_eq!(content_hash(b""), "e3b0c442");
}

#[test]
fn test_parse_encrypted_filename_new_format() {
    let result = parse_encrypted_filename("/vault/secrets.env.a1b2c3d4.enc");
    assert_eq!(result, Some(("secrets.env".to_string(), "a1b2c3d4".to_string())));
}

#[test]
fn test_parse_encrypted_filename_old_format() {
    let result = parse_encrypted_filename("/vault/secrets.env.enc");
    assert_eq!(result, None);
}

#[test]
fn test_parse_encrypted_filename_invalid_hash() {
    // Too short
    assert_eq!(parse_encrypted_filename("/vault/secrets.env.a1b2.enc"), None);
    // Too long
    assert_eq!(parse_encrypted_filename("/vault/secrets.env.a1b2c3d4e5.enc"), None);
    // Non-hex
    assert_eq!(parse_encrypted_filename("/vault/secrets.env.ghijklmn.enc"), None);
}

#[test]
fn parse_encrypted_filename_lowercases_the_hash() {
    assert_eq!(
        parse_encrypted_filename("x.env.A1B2C3D4.enc"),
        Some(("x.env".to_string(), "a1b2c3d4".to_string()))
    );
}

#[test]
fn test_is_old_enc_format() {
    assert!(is_old_enc_format("secrets.env.enc"));
    assert!(!is_old_enc_format("secrets.env.a1b2c3d4.enc"));
    assert!(!is_old_enc_format("secrets.env"));
}

#[test]
fn test_encrypted_filename() {
    let result = encrypted_filename("/vault/secrets.env", "a1b2c3d4");
    assert_eq!(result, "/vault/secrets.env.a1b2c3d4.enc");
}

#[test]
fn encrypted_name_parses_back() {
    let name = encrypted_filename("/vault/secrets.env", "0badcafe");
    assert_eq!(
        parse_encrypted_filename(&name),
        Some(("secrets.env".to_string(), "0badcafe".to_string()))
    );
}
