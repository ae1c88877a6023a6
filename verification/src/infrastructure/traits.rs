//! I/O boundary traits. The services of this crate reach the filesystem
//! only through `FileSystem`, whose implementations live with the program
//! (or with a test's mock). Nothing is assumed of what they return.
use vstd::prelude::*;

verus! {

/// `std::io::Error`, carried through unchanged.
#[verifier::external_type_specification]
#[verifier::external_body]
pub struct ExIoError(std::io::Error);

/// Filesystem abstraction; paths are `/`-separated text.
pub trait FileSystem {
    /// Read file contents to string.
    fn read_to_string(&self, path: &str) -> Result<String, std::io::Error>;

    /// Read file contents as bytes.
    fn read(&self, path: &str) -> Result<Vec<u8>, std::io::Error>;

    /// Write string content to file.
    fn write(&self, path: &str, content: &str) -> Result<(), std::io::Error>;

    /// Check if path exists.
    fn path_exists(&self, path: &str) -> bool;

    /// Check if path is a file.
    fn is_file(&self, path: &str) -> bool;

    /// Check if path is a directory.
    fn is_dir(&self, path: &str) -> bool;

    /// Create directory and all parent directories.
    fn create_dir_all(&self, path: &str) -> Result<(), std::io::Error>;

    /// Rename/move a file.
    fn rename(&self, from: &str, to: &str) -> Result<(), std::io::Error>;

    /// Remove a file.
    fn remove_file(&self, path: &str) -> Result<(), std::io::Error>;

    /// Remove a directory and all its contents.
    fn remove_dir_all(&self, path: &str) -> Result<(), std::io::Error>;

    /// Create a symbolic link.
    fn symlink(&self, original: &str, link: &str) -> Result<(), std::io::Error>;

    /// Create symlink with relative path (from link's parent to original).
    fn symlink_relative(&self, original: &str, link: &str) -> Result<(), std::io::Error>;

    /// Read the target of a symbolic link.
    fn read_link(&self, path: &str) -> Result<String, std::io::Error>;

    /// Check if path is a symbolic link.
    fn is_symlink(&self, path: &str) -> bool;

    /// Canonicalize path (resolve symlinks, make absolute).
    fn canonicalize(&self, path: &str) -> Result<String, std::io::Error>;

    /// Copy file from source to destination.
    fn copy(&self, from: &str, to: &str) -> Result<u64, std::io::Error>;

    /// Copy directory recursively from source to destination.
    fn copy_dir(&self, from: &str, to: &str) -> Result<(), std::io::Error>;

    /// Copy file or directory (auto-detect).
    fn copy_any(&self, from: &str, to: &str) -> Result<(), std::io::Error>;

    /// Remove file or directory (auto-detect).
    fn remove_any(&self, path: &str) -> Result<(), std::io::Error>;

    /// Create parent directories if needed.
    fn ensure_parent(&self, path: &str) -> Result<(), std::io::Error>;

    /// Move file or directory, with fallback for cross-device moves.
    fn move_path(&self, from: &str, to: &str) -> Result<(), std::io::Error>;
}

/// What a finished external command reported, its output decoded as text
/// (invalid UTF-8 replaced).
#[derive(Debug)]
pub struct CommandOutput {
    /// The command exited successfully.
    pub success: bool,
    /// The exit code, when the command exited with one.
    pub code: Option<i32>,
    pub stdout: String,
    pub stderr: String,
}

/// External command runner abstraction.
pub trait CommandRunner {
    /// Run a command with arguments.
    fn run(&self, cmd: &str, args: &[String]) -> Result<CommandOutput, std::io::Error>;

    /// Run a command with arguments, feeding `stdin` to it.
    fn run_with_stdin(&self, cmd: &str, args: &[String], stdin: &str) -> Result<CommandOutput, std::io::Error>;

    /// Run a command on the terminal (an editor may take it over); whether
    /// it exited successfully.
    fn run_interactive(&self, cmd: &str, args: &[String]) -> Result<bool, std::io::Error>;
}

/// Item for FZF-style selection.
#[derive(Debug)]
pub struct SelectionItem {
    /// Display text shown in selector
    pub display: String,
    /// Actual value (e.g., file path)
    pub value: String,
}

/// Interactive FZF-style selector abstraction.
pub trait Selector {
    /// Present items to user and return selected one; `None` when the user
    /// cancels.
    fn select_one(&self, items: &[SelectionItem], prompt: &str) -> Result<Option<SelectionItem>, String>;
}

/// Editor abstraction for opening files.
pub trait Editor {
    /// Open a file in the editor; blocks until the editor exits.
    fn open(&self, path: &str) -> Result<(), std::io::Error>;
}

} // verus!
