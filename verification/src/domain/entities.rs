//! Domain entities: projects, vaults, env files, guarded and swapped files.
use vstd::prelude::*;

use crate::domain::vars::VarMap;
use crate::pathstr::{is_absolute, is_absolute_vec, join, join_vec, parent, parent_vec};
use crate::text::{
    chars_of, is_ws, is_ws_char, lines, slice, split_lines, starts_with, starts_with_vec,
    string_of, trim, trim_end, trim_end_vec, trim_vec, views,
};

verus! {

/// A project linked to a vault.
#[derive(Debug)]
pub struct Project {
    pub project_dir: String,
    pub vault: Vault,
}

/// Secure storage location for a project.
#[derive(Debug)]
pub struct Vault {
    /// Absolute path to the vault directory
    pub path: String,
    /// Unique identifier, e.g., "myproject-a1b2c3d4"
    pub sentinel_id: String,
}

/// File managed by guard (symlinked into project).
#[derive(Debug)]
pub struct GuardedFile {
    /// Where the symlink lives in the project
    pub project_path: String,
    /// Where the actual file lives in the vault
    pub vault_path: String,
    /// Whether the file is SOPS-encrypted
    pub encrypted: bool,
}

/// File managed by the swap mechanism.
#[derive(Debug)]
pub struct SwapFile {
    /// Path in the project directory
    pub project_path: String,
    /// Path in the vault (override version)
    pub vault_path: String,
    /// Current swap state
    pub state: SwapState,
}

/// State of a swappable file.
#[derive(Debug)]
pub enum SwapState {
    /// Original in project, override in vault
    Out,
    /// Override in project, original backed up
    In { hostname: String },
}

/// SOPS encryption status for a directory.
#[derive(Debug)]
pub struct SopsStatus {
    /// Files that would be encrypted (matching enc patterns, not yet encrypted)
    pub pending_encrypt: Vec<String>,
    /// Files that are already encrypted (*.enc)
    pub encrypted: Vec<String>,
    /// Files that would be deleted by clean (plaintext matching enc patterns)
    pub pending_clean: Vec<String>,
}

/// Error parsing an env file.
#[derive(Debug)]
pub struct EnvFileParseError {
    pub message: String,
}

/// Environment file with optional parent links.
#[derive(Debug)]
pub struct EnvFile {
    /// Path to this env file
    pub path: String,
    /// Parent env files (several parents form a DAG)
    pub parents: Vec<String>,
    /// Parsed environment variables
    pub variables: VarMap,
}

// ------------------------------------------------------------------
// Specification of the env file format
// ------------------------------------------------------------------

/// The directive that names parents: `# rsenv:`.
pub open spec fn directive() -> Seq<char> {
    seq!['#', ' ', 'r', 's', 'e', 'n', 'v', ':']
}

/// The prefix of a variable line: `export `.
pub open spec fn export_prefix() -> Seq<char> {
    seq!['e', 'x', 'p', 'o', 'r', 't', ' ']
}

/// The whitespace-separated words of `s` (`str::split_whitespace`).
pub open spec fn split_ws(s: Seq<char>) -> Seq<Seq<char>>
    decreases s.len(),
{
    if s.len() == 0 {
        seq![]
    } else if is_ws(s[0]) {
        split_ws(s.drop_first())
    } else {
        let t = split_ws(s.drop_first());
        if s.len() > 1 && !is_ws(s[1]) && t.len() > 0 {
            seq![seq![s[0]] + t[0]] + t.drop_first()
        } else {
            seq![seq![s[0]]] + t
        }
    }
}

/// Position of the first `#` outside quotes, scanning from `i` with the
/// given quote state.
pub open spec fn comment_at(s: Seq<char>, i: int, sq: bool, dq: bool) -> Option<int>
    decreases s.len() - i,
{
    if i < 0 || i >= s.len() {
        None
    } else {
        let c = s[i];
        if c == '\'' && !dq {
            comment_at(s, i + 1, !sq, dq)
        } else if c == '"' && !sq {
            comment_at(s, i + 1, sq, !dq)
        } else if c == '#' && !sq && !dq {
            Some(i)
        } else {
            comment_at(s, i + 1, sq, dq)
        }
    }
}

/// The value with a trailing comment (a `#` outside quotes) cut off.
pub open spec fn strip_comment(s: Seq<char>) -> Seq<char> {
    let t = trim(s);
    match comment_at(t, 0, false, false) {
        Some(i) => trim_end(t.take(i)),
        None => t,
    }
}

/// The value without one pair of surrounding `"…"` or `'…'`.
pub open spec fn unquoted(s: Seq<char>) -> Seq<char> {
    let t = trim(s);
    if t.len() >= 2 && ((t[0] == '"' && t.last() == '"') || (t[0] == '\'' && t.last() == '\'')) {
        t.subrange(1, t.len() - 1)
    } else {
        t
    }
}

/// `KEY=value` → `(KEY, value)`: both sides trimmed, a trailing comment
/// and surrounding quotes removed from the value.
pub open spec fn env_line(line: Seq<char>) -> Option<(Seq<char>, Seq<char>)> {
    match crate::text::find_char(line, '=') {
        None => None,
        Some(eq) => Some((trim(line.take(eq)), unquoted(strip_comment(trim(line.skip(eq + 1)))))),
    }
}

/// The variable a line of an env file defines, if any: only
/// `export KEY=value` lines define variables.
pub open spec fn line_var(line: Seq<char>) -> Option<(Seq<char>, Seq<char>)> {
    let t = trim(line);
    if t.len() == 0 || t[0] == '#' {
        None
    } else if starts_with(t, export_prefix()) {
        env_line(t.skip(7))
    } else {
        None
    }
}

/// The parent specs a line names: the words after `# rsenv:`.
pub open spec fn line_parents(line: Seq<char>) -> Seq<Seq<char>> {
    let t = trim(line);
    if t.len() > 0 && starts_with(t, directive()) {
        split_ws(t.skip(8))
    } else {
        seq![]
    }
}

/// All parent specs of the lines, in order.
pub open spec fn parent_specs(ls: Seq<Seq<char>>) -> Seq<Seq<char>>
    decreases ls.len(),
{
    if ls.len() == 0 {
        seq![]
    } else {
        parent_specs(ls.drop_last()) + line_parents(ls.last())
    }
}

/// The value of `k` given by the last line of `ls` that defines it.
pub open spec fn last_def(ls: Seq<Seq<char>>, k: Seq<char>) -> Option<Seq<char>>
    decreases ls.len(),
{
    if ls.len() == 0 {
        None
    } else {
        match line_var(ls.last()) {
            Some((k2, v2)) => if k2 == k {
                Some(v2)
            } else {
                last_def(ls.drop_last(), k)
            },
            None => last_def(ls.drop_last(), k),
        }
    }
}

/// A parent path as written, resolved against the env file's directory.
pub open spec fn resolve_parent(dir: Option<Seq<char>>, p: Seq<char>) -> Seq<char> {
    if is_absolute(p) {
        p
    } else {
        match dir {
            Some(d) => join(d, p),
            None => p,
        }
    }
}

/// A path text with nothing for shell expansion to act on: no `$` and no
/// leading `~`.
pub open spec fn plain_path(p: Seq<char>) -> bool {
    !p.contains('$') && !(p.len() > 0 && p[0] == '~')
}

/// `p` is some expansion of a parent spec resolved against `dir`: kept when
/// absolute, else joined onto the directory.
pub open spec fn resolved_expansion(p: Seq<char>, dir: Option<Seq<char>>) -> bool {
    exists|e: Seq<char>| p == #[trigger] resolve_parent(dir, e)
}

/// `parents` are the parent specs, each expanded and resolved against `dir`
/// (the expansion of a spec is known when it is a plain path; the others
/// depend on the environment).
pub open spec fn parents_resolved(parents: Seq<String>, specs: Seq<Seq<char>>, dir: Option<Seq<char>>) -> bool {
    &&& parents.len() == specs.len()
    &&& forall|i: int| 0 <= i < specs.len() && plain_path(#[trigger] specs[i]) ==> parents[i]@ == resolve_parent(dir, specs[i])
    &&& forall|i: int| 0 <= i < parents.len() ==> resolved_expansion(#[trigger] parents[i]@, dir)
}

// ------------------------------------------------------------------
// Lemmas about words
// ------------------------------------------------------------------

/// A word running to the first whitespace comes first.
proof fn lemma_split_ws_word(s: Seq<char>, e: int)
    requires
        0 < e <= s.len(),
        forall|j: int| 0 <= j < e ==> !is_ws(#[trigger] s[j]),
        e == s.len() || is_ws(s[e]),
    ensures
        split_ws(s) == seq![s.take(e)] + split_ws(s.skip(e)),
    decreases e,
{
    let d = s.drop_first();
    if e == 1 {
        assert(s.skip(1) =~= d);
        assert(s.take(1) =~= seq![s[0]]);
    } else {
        assert forall|j: int| 0 <= j < e - 1 implies !is_ws(#[trigger] d[j]) by {
            assert(d[j] == s[j + 1]);
        }
        lemma_split_ws_word(d, e - 1);
        assert(d.skip(e - 1) =~= s.skip(e));
        assert(!is_ws(s[1]));
        let t = split_ws(d);
        assert(t[0] == d.take(e - 1));
        assert(seq![s[0]] + d.take(e - 1) =~= s.take(e));
        assert(t.drop_first() =~= split_ws(s.skip(e)));
    }
}

// ------------------------------------------------------------------
// Executable parsing
// ------------------------------------------------------------------

/// `str::split_whitespace`.
pub fn split_whitespace(v: &Vec<char>) -> (r: Vec<Vec<char>>)
    ensures
        views(r@) == split_ws(v@),
{
    let mut r: Vec<Vec<char>> = Vec::new();
    let mut i: usize = 0;
    assert(v@.skip(0) =~= v@);
    while i < v.len()
        invariant
            i <= v.len(),
            split_ws(v@) == views(r@) + split_ws(v@.skip(i as int)),
        decreases v.len() - i,
    {
        if is_ws_char(v[i]) {
            assert(v@.skip(i as int).drop_first() =~= v@.skip(i + 1));
            i = i + 1;
        } else {
            let mut e: usize = i + 1;
            while e < v.len() && !is_ws_char(v[e])
                invariant
                    i < e <= v.len(),
                    forall|j: int| i <= j < e ==> !is_ws(#[trigger] v@[j]),
                decreases v.len() - e,
            {
                e = e + 1;
            }
            let ghost rest = v@.skip(i as int);
            proof {
                assert forall|j: int| 0 <= j < e - i implies !is_ws(#[trigger] rest[j]) by {
                    assert(rest[j] == v@[i + j]);
                }
                if e < v.len() {
                    assert(rest[e - i] == v@[e as int]);
                }
                lemma_split_ws_word(rest, e - i);
                assert(rest.skip(e - i) =~= v@.skip(e as int));
            }
            let w = slice(v, i, e);
            assert(w@ =~= rest.take(e - i));
            let ghost old_r = views(r@);
            r.push(w);
            assert(views(r@) =~= old_r.push(w@));
            assert(views(r@) + split_ws(v@.skip(e as int)) =~= old_r + (seq![w@] + split_ws(
                v@.skip(e as int),
            )));
            i = e;
        }
    }
    assert(v@.skip(i as int) =~= Seq::<char>::empty());
    assert(views(r@) + split_ws(v@.skip(i as int)) =~= views(r@));
    r
}

/// Strip trailing comment from a value, respecting quotes.
/// `'value'  # comment` → `'value'`; `'val#ue'` is kept.
pub fn strip_trailing_comment(s: &Vec<char>) -> (r: Vec<char>)
    ensures
        r@ == strip_comment(s@),
{
    let t = trim_vec(s);
    let mut i: usize = 0;
    let mut sq = false;
    let mut dq = false;
    while i < t.len()
        invariant
            i <= t.len(),
            t@ == trim(s@),
            comment_at(t@, 0, false, false) == comment_at(t@, i as int, sq, dq),
        decreases t.len() - i,
    {
        let c = t[i];
        if c == '\'' && !dq {
            sq = !sq;
        } else if c == '"' && !sq {
            dq = !dq;
        } else if c == '#' && !sq && !dq {
            assert(comment_at(t@, i as int, sq, dq) == Some(i as int));
            let head = slice(&t, 0, i);
            assert(head@ =~= t@.take(i as int));
            return trim_end_vec(&head);
        }
        i = i + 1;
    }
    t
}

/// Strip surrounding quotes (single or double) from a value.
pub fn strip_quotes(s: &Vec<char>) -> (r: Vec<char>)
    ensures
        r@ == unquoted(s@),
{
    let t = trim_vec(s);
    let n = t.len();
    if n >= 2 && ((t[0] == '"' && t[n - 1] == '"') || (t[0] == '\'' && t[n - 1] == '\'')) {
        slice(&t, 1, n - 1)
    } else {
        t
    }
}

/// Parse a single `KEY=value` line.
pub fn parse_env_line(line: &Vec<char>) -> (r: Option<(Vec<char>, Vec<char>)>)
    ensures
        match r {
            Some((k, v)) => env_line(line@) == Some((k@, v@)),
            None => env_line(line@) is None,
        },
{
    let eq = match crate::text::find_char_from(line, '=', 0) {
        Some(eq) => eq,
        None => {
            proof {
                assert(line@.skip(0) =~= line@);
                crate::text::lemma_find_char_is(line@, '=', None);
            }
            return None;
        },
    };
    proof {
        crate::text::lemma_find_char_is(line@, '=', Some(eq as int));
    }
    let key_raw = slice(line, 0, eq);
    assert(key_raw@ =~= line@.take(eq as int));
    let key = trim_vec(&key_raw);
    let val_raw = slice(line, eq + 1, line.len());
    assert(val_raw@ =~= line@.skip(eq + 1));
    let val_t = trim_vec(&val_raw);
    let val_c = strip_trailing_comment(&val_t);
    let val = strip_quotes(&val_c);
    Some((key, val))
}

fn line_var_exec(line: &Vec<char>) -> (r: Option<(Vec<char>, Vec<char>)>)
    ensures
        match r {
            Some((k, v)) => line_var(line@) == Some((k@, v@)),
            None => line_var(line@) is None,
        },
{
    let t = trim_vec(line);
    if t.len() == 0 || t[0] == '#' {
        return None;
    }
    let ex = vec!['e', 'x', 'p', 'o', 'r', 't', ' '];
    assert(ex@ =~= export_prefix());
    if starts_with_vec(&t, &ex) {
        let rest = slice(&t, 7, t.len());
        assert(rest@ =~= t@.skip(7));
        parse_env_line(&rest)
    } else {
        None
    }
}

fn line_parents_exec(line: &Vec<char>) -> (r: Vec<Vec<char>>)
    ensures
        views(r@) == line_parents(line@),
{
    let t = trim_vec(line);
    let d = vec!['#', ' ', 'r', 's', 'e', 'n', 'v', ':'];
    assert(d@ =~= directive());
    if t.len() > 0 && starts_with_vec(&t, &d) {
        let rest = slice(&t, 8, t.len());
        assert(rest@ =~= t@.skip(8));
        split_whitespace(&rest)
    } else {
        let r: Vec<Vec<char>> = Vec::new();
        assert(views(r@) =~= Seq::<Seq<char>>::empty());
        r
    }
}

/// `shellexpand::full`: expands `~` and `$VAR`/`${VAR}` from the process
/// environment, giving the input back when expansion fails. What the
/// environment holds is not stated; the crate's source returns its input
/// unchanged when it holds no `$` and does not start with `~`.
#[verifier::external_body]
fn shell_expand(path: &str) -> (r: String)
    ensures
        plain_path(path@) ==> r@ == path@,
{
    match shellexpand::full(path) {
        Ok(s) => s.into_owned(),
        Err(_) => path.to_string(),
    }
}

/// Expand environment variables (`$VAR`, `${VAR}`) and `~` in a path string.
pub fn expand_env_vars(path: &str) -> (r: String)
    ensures
        plain_path(path@) ==> r@ == path@,
{
    shell_expand(path)
}

fn resolve_parent_exec(dir: &Option<Vec<char>>, spec: &Vec<char>) -> (r: String)
    ensures
        plain_path(spec@) ==> r@ == resolve_parent(
            match dir {
                Some(d) => Some(d@),
                None => None,
            },
            spec@,
        ),
        resolved_expansion(r@, match dir {
            Some(d) => Some(d@),
            None => None,
        }),
{
    let s = string_of(spec);
    let expanded = expand_env_vars(s.as_str());
    let e = chars_of(expanded.as_str());
    let ghost gd = match dir {
        Some(d) => Some(d@),
        None => None,
    };
    let r = if is_absolute_vec(&e) {
        expanded
    } else {
        match dir {
            Some(d) => string_of(&join_vec(d, &e)),
            None => expanded,
        }
    };
    assert(r@ == resolve_parent(gd, e@));
    r
}

impl EnvFile {
    /// Parse env file content.
    ///
    /// Extracts parent links from `# rsenv: parent.env` or
    /// `# rsenv: a.env b.env` (relative parents resolve against the file's
    /// directory) and environment variables from `export KEY=value` lines.
    pub fn parse(content: &str, file_path: String) -> (r: Result<Self, EnvFileParseError>)
        ensures
            r is Ok,
            r matches Ok(f) ==> {
                &&& f.path@ == file_path@
                &&& f.variables.wf()
                &&& forall|k: Seq<char>, v: Seq<char>| #[trigger] f.variables.maps(k, v) == (last_def(lines(content@), k) == Some(v))
                &&& parents_resolved(f.parents@, parent_specs(lines(content@)), parent(file_path@))
            },
    {
        let cv = chars_of(content);
        let ls = split_lines(&cv);
        let pv = chars_of(file_path.as_str());
        let dir = parent_vec(&pv);
        let ghost gdir = parent(file_path@);
        let mut parents: Vec<String> = Vec::new();
        let mut vars = VarMap::new();
        let mut i: usize = 0;
        assert(views(ls@).take(0) =~= Seq::<Seq<char>>::empty());
        while i < ls.len()
            invariant
                i <= ls.len(),
                views(ls@) == lines(content@),
                gdir == match dir {
                    Some(d) => Some(d@),
                    None => None,
                },
                vars.wf(),
                forall|k: Seq<char>, v: Seq<char>| #[trigger] vars.maps(k, v) == (last_def(views(ls@).take(i as int), k) == Some(v)),
                parents_resolved(parents@, parent_specs(views(ls@).take(i as int)), gdir),
            decreases ls.len() - i,
        {
            let line = &ls[i];
            let ghost pre = views(ls@).take(i as int);
            let ghost lv = line@;
            assert(views(ls@).take(i + 1) =~= pre.push(lv));
            assert(pre.push(lv).drop_last() =~= pre);
            let words = line_parents_exec(line);
            let ghost old_parents = parents@;
            let mut w: usize = 0;
            while w < words.len()
                invariant
                    w <= words.len(),
                    gdir == match dir {
                        Some(d) => Some(d@),
                        None => None,
                    },
                    parents@.len() == old_parents.len() + w,
                    forall|j: int| 0 <= j < old_parents.len() ==> #[trigger] parents@[j] == old_parents[j],
                    forall|j: int| 0 <= j < w && plain_path(#[trigger] views(words@)[j]) ==> parents@[old_parents.len() + j]@ == resolve_parent(gdir, views(words@)[j]),
                    forall|j: int| 0 <= j < parents@.len() ==> resolved_expansion(#[trigger] parents@[j]@, gdir),
                decreases words.len() - w,
            {
                let p = resolve_parent_exec(&dir, &words[w]);
                parents.push(p);
                w = w + 1;
            }
            proof {
                let specs_new = parent_specs(pre.push(lv));
                assert(specs_new =~= parent_specs(pre) + views(words@));
                assert forall|j: int| 0 <= j < specs_new.len() && plain_path(#[trigger] specs_new[j]) implies parents@[j]@ == resolve_parent(gdir, specs_new[j]) by {
                    if j < old_parents.len() {
                        assert(parents@[j] == old_parents[j]);
                    } else {
                        assert(specs_new[j] == views(words@)[j - old_parents.len()]);
                    }
                }
            }
            match line_var_exec(line) {
                Some((k, v)) => {
                    let ks = string_of(&k);
                    let vs = string_of(&v);
                    vars.insert(ks, vs);
                },
                None => {},
            }
            i = i + 1;
        }
        assert(views(ls@).take(i as int) =~= views(ls@));
        Ok(EnvFile { path: file_path, parents, variables: vars })
    }
}

} // verus!
