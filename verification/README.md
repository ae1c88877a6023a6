# rsenv

rsenv manages a developer's personal workspace beside a project: a vault
directory linked to the project by a single `.envrc` symlink, hierarchical
env files (`# rsenv: parent.env`), guarded secrets, swapped-in dev overrides
and SOPS encryption of the vault.

The library in `src/` holds the rules, each function with a contract proved
by Verus:

- `text`, `pathstr`: the string and path model the contracts are written in
  (lines, trimming, joining, file names, parents).
- `domain`: env file parsing, variable maps, the env tree arena and builder.
- `application`: dotfile neutralisation, content hashes and encrypted file
  names, the `.envrc` rsenv section, and the services (environment, vault,
  swap, gitignore, sops) written against the `FileSystem` and
  `CommandRunner` traits.
- `config`: how the configuration layers combine.
- `cli`: exit codes, vimscript layout, pager and hook rules, diff rendering.

Public proof functions state the laws that relate several functions, for
example that a rewritten `.gitignore` reads back as exactly the configured
patterns, that deleting the rsenv section undoes inserting it, and that an
encrypted file name parses back to its plaintext name and hash.

`app/` is the command-line program: argument parsing, the real filesystem
and process runner, reading the configuration files and printing.
