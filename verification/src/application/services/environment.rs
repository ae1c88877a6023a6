//! Environment hierarchy service: building merged environment variables
//! from hierarchical env files, and editing their parent links.
use vstd::prelude::*;

use crate::application::envrc::context2;
use crate::application::error::{detected, io_failed, ApplicationError, IoKind};
use crate::domain::entities::{directive, split_whitespace, split_ws, EnvFile};
use crate::domain::vars::{has_entry, names, VarMap};
use crate::infrastructure::traits::FileSystem;
use crate::infrastructure::walk::walk_dir;
use crate::pathstr::{
    opt_text,
    extension, extension_vec, file_name, file_name_vec, file_stem, file_stem_vec, is_absolute,
    parent, parent_vec, with_file_name, with_file_name_vec,
};
use crate::text::{
    chars_of, ends_with, ends_with_vec, join, join_newline, lines, push_all, push_str,
    split_lines, starts_with, starts_with_vec, string_of, trim, trim_vec, views,
};

verus! {

/// Output from building an environment hierarchy.
#[derive(Debug)]
pub struct EnvOutput {
    /// Merged environment variables (parents overridden by children)
    pub variables: VarMap,
    /// Files in the hierarchy, in BFS order (leaf first)
    pub files: Vec<EnvFile>,
}

/// An env file whose `# rsenv:` directive names several parents.
#[derive(Debug)]
pub struct MultiParentFile {
    /// The file carrying the directive
    pub file: String,
    /// The parents it names, as written
    pub parents: Vec<String>,
}

/// Hierarchy information for a directory of env files.
#[derive(Debug)]
pub struct EnvHierarchy {
    /// All env files found in the directory
    pub files: Vec<EnvFile>,
}

/// Environments scaffolded into a vault's `envs/` directory; `none` is the
/// root that all others link to.
pub const DEFAULT_ENVS: [&'static str; 6] = ["none", "local", "test", "int", "e2e", "prod"];

/// The heading line of a default env file.
pub open spec fn env_heading(env: Seq<char>) -> Seq<char> {
    "################################## "@ + env + ".env ##################################\n"@
}

/// Body of a default env file: `none.env` is the root and has no parent
/// link; every other env declares `none.env` as its parent.
pub open spec fn spec_default_env_content(env: Seq<char>) -> Seq<char> {
    if env == "none"@ {
        env_heading(env) + "export RUN_ENV="@ + env + seq!['\n']
    } else {
        env_heading(env) + "# rsenv: none.env\n"@ + "export RUN_ENV="@ + env + seq!['\n']
    }
}

/// Body of a default env file.
pub fn default_env_content(env: &str) -> (r: String)
    ensures
        r@ == spec_default_env_content(env@),
{
    let ev = chars_of(env);
    let none = chars_of("none");
    let mut r = chars_of("################################## ");
    push_all(&mut r, &ev);
    push_str(&mut r, ".env ##################################\n");
    if !crate::text::eq_vec(&ev, &none) {
        push_str(&mut r, "# rsenv: none.env\n");
    }
    push_str(&mut r, "export RUN_ENV=");
    push_all(&mut r, &ev);
    r.push('\n');
    assert(r@ =~= spec_default_env_content(env@));
    string_of(&r)
}

/// Name a file is swept aside to: `local.env` → `local.bkp.env`; a file
/// without extension gets the marker appended: `NOTES` → `NOTES.bkp`.
pub open spec fn spec_backup_name(p: Seq<char>) -> Seq<char> {
    let stem = match file_stem(p) {
        Some(s) => s,
        None => seq![],
    };
    match extension(p) {
        Some(ext) => with_file_name(p, stem + ".bkp."@ + ext),
        None => with_file_name(p, stem + ".bkp"@),
    }
}

/// The backup name of a path.
pub fn backup_name(path: &str) -> (r: String)
    ensures
        r@ == spec_backup_name(path@),
{
    let v = chars_of(path);
    let mut n = match file_stem_vec(&v) {
        Some(s) => s,
        None => Vec::new(),
    };
    match extension_vec(&v) {
        Some(ext) => {
            push_str(&mut n, ".bkp.");
            push_all(&mut n, &ext);
        },
        None => {
            push_str(&mut n, ".bkp");
        },
    }
    string_of(&with_file_name_vec(&v, &n))
}

/// The path already names a backup: `*.bkp`, or a stem ending in `.bkp`.
pub open spec fn spec_is_backup(p: Seq<char>) -> bool {
    extension(p) == Some("bkp"@) || match file_stem(p) {
        Some(s) => ends_with(s, ".bkp"@),
        None => false,
    }
}

/// True when `path` already names a backup, so sweeps never cascade.
pub fn is_backup(path: &str) -> (b: bool)
    ensures
        b == spec_is_backup(path@),
{
    let v = chars_of(path);
    let bkp = chars_of("bkp");
    match extension_vec(&v) {
        Some(e) => {
            if crate::text::eq_vec(&e, &bkp) {
                return true;
            }
        },
        None => {},
    }
    match file_stem_vec(&v) {
        Some(s) => ends_with_vec(&s, &chars_of(".bkp")),
        None => false,
    }
}

/// A line is a parent directive (`# rsenv:` after trimming).
pub open spec fn is_directive_line(l: Seq<char>) -> bool {
    starts_with(trim(l), directive())
}

/// The number of directive lines.
pub open spec fn directive_count(content: Seq<char>) -> nat {
    lines(content).filter(|l: Seq<char>| is_directive_line(l)).len()
}

/// The lines with every directive line replaced by `rep`.
pub open spec fn replaced_lines(ls: Seq<Seq<char>>, rep: Seq<char>) -> Seq<Seq<char>> {
    ls.map_values(|l: Seq<char>| if is_directive_line(l) { rep } else { l })
}

/// Every directive line replaced by `rep`, lines joined, newline-terminated.
pub open spec fn directives_replaced(content: Seq<char>, rep: Seq<char>) -> Seq<char> {
    join(replaced_lines(lines(content), rep), seq!['\n']) + seq!['\n']
}

/// The content with the parent link set to `parent_ref`: the single
/// directive replaced, or one added at the top; `Err(count)` when there is
/// more than one directive.
pub open spec fn spec_linked(content: Seq<char>, parent_ref: Seq<char>) -> Result<Seq<char>, nat> {
    let n = directive_count(content);
    let d = "# rsenv: "@ + parent_ref;
    if n > 1 {
        Err(n)
    } else if n == 0 {
        Ok(d + seq!['\n'] + content)
    } else {
        Ok(directives_replaced(content, d))
    }
}

/// The content with its parent link emptied: `Ok(None)` when there is no
/// directive, `Err(count)` when there is more than one.
pub open spec fn spec_unlinked(content: Seq<char>) -> Result<Option<Seq<char>>, nat> {
    let n = directive_count(content);
    if n > 1 {
        Err(n)
    } else if n == 0 {
        Ok(None)
    } else {
        Ok(Some(directives_replaced(content, "# rsenv:"@)))
    }
}

// ------------------------------------------------------------------
// What linking leaves for the parser
// ------------------------------------------------------------------

/// A line of the rewritten content: a directive replaced by `d`, read back
/// (a trailing carriage return dropped).
pub open spec fn relinked_line(l: Seq<char>, d: Seq<char>) -> Seq<char> {
    crate::text::strip_cr(if is_directive_line(l) { d } else { l })
}

/// A word without whitespace splits into itself.
proof fn lemma_split_ws_word(w: Seq<char>)
    requires
        w.len() > 0,
        forall|i: int| 0 <= i < w.len() ==> !crate::text::is_ws(#[trigger] w[i]),
    ensures
        split_ws(w) == seq![w],
    decreases w.len(),
{
    if w.len() == 1 {
        assert(w.drop_first() =~= Seq::<char>::empty());
        assert(split_ws(Seq::<char>::empty()) == Seq::<Seq<char>>::empty());
        assert(seq![w[0]] =~= w);
        assert(seq![seq![w[0]]] + Seq::<Seq<char>>::empty() =~= seq![w]);
    } else {
        let rest = w.drop_first();
        assert forall|i: int| 0 <= i < rest.len() implies !crate::text::is_ws(#[trigger] rest[i]) by {
            assert(rest[i] == w[i + 1]);
        }
        lemma_split_ws_word(rest);
        assert(!crate::text::is_ws(w[1]));
        assert(seq![w[0]] + rest =~= w);
        assert(seq![seq![w[0]] + rest] + seq![rest].drop_first() =~= seq![w]);
    }
}

/// The parent specs of two runs of lines, one after the other.
proof fn lemma_parent_specs_append(a: Seq<Seq<char>>, b: Seq<Seq<char>>)
    ensures
        crate::domain::entities::parent_specs(a + b) == crate::domain::entities::parent_specs(a) + crate::domain::entities::parent_specs(b),
    decreases b.len(),
{
    if b.len() == 0 {
        assert(a + b =~= a);
        assert(crate::domain::entities::parent_specs(a) + Seq::<Seq<char>>::empty() =~= crate::domain::entities::parent_specs(a));
    } else {
        assert((a + b).drop_last() =~= a + b.drop_last());
        assert((a + b).last() == b.last());
        lemma_parent_specs_append(a, b.drop_last());
        assert(crate::domain::entities::parent_specs(a) + crate::domain::entities::parent_specs(b)
            =~= crate::domain::entities::parent_specs(a) + crate::domain::entities::parent_specs(b.drop_last())
            + crate::domain::entities::line_parents(b.last()));
    }
}

/// A line that is no directive names no parent, with or without a trailing
/// carriage return.
proof fn lemma_plain_line_no_parents(l: Seq<char>)
    requires
        !is_directive_line(l),
    ensures
        crate::domain::entities::line_parents(l) == Seq::<Seq<char>>::empty(),
        crate::domain::entities::line_parents(crate::text::strip_cr(l)) == Seq::<Seq<char>>::empty(),
        !is_directive_line(crate::text::strip_cr(l)),
{
    crate::text::lemma_trim_strip_cr(l);
}

/// Lines without a directive name no parent.
proof fn lemma_no_directives_no_parents(ls: Seq<Seq<char>>)
    requires
        ls.filter(|l: Seq<char>| is_directive_line(l)).len() == 0,
    ensures
        crate::domain::entities::parent_specs(ls) == Seq::<Seq<char>>::empty(),
    decreases ls.len(),
{
    reveal_with_fuel(Seq::filter, 1);
    if ls.len() > 0 {
        assert(!is_directive_line(ls.last()));
        lemma_no_directives_no_parents(ls.drop_last());
        lemma_plain_line_no_parents(ls.last());
        assert(Seq::<Seq<char>>::empty() + Seq::<Seq<char>>::empty() =~= Seq::<Seq<char>>::empty());
    }
}

/// With at most one directive, replacing it by `d` leaves the parents `d`
/// names (none without a directive).
proof fn lemma_relinked_parents(ls: Seq<Seq<char>>, d: Seq<char>)
    requires
        ls.filter(|l: Seq<char>| is_directive_line(l)).len() <= 1,
        crate::text::strip_cr(d) == d,
    ensures
        crate::domain::entities::parent_specs(ls.map_values(|l: Seq<char>| relinked_line(l, d)))
            == if ls.filter(|l: Seq<char>| is_directive_line(l)).len() == 0 {
                Seq::<Seq<char>>::empty()
            } else {
                crate::domain::entities::line_parents(d)
            },
    decreases ls.len(),
{
    reveal_with_fuel(Seq::filter, 1);
    let m = ls.map_values(|l: Seq<char>| relinked_line(l, d));
    if ls.len() == 0 {
        assert(m =~= Seq::<Seq<char>>::empty());
    } else {
        let init = ls.drop_last();
        let f = ls.filter(|l: Seq<char>| is_directive_line(l));
        let fi = init.filter(|l: Seq<char>| is_directive_line(l));
        assert(fi.len() <= f.len());
        lemma_relinked_parents(init, d);
        assert(m.drop_last() =~= init.map_values(|l: Seq<char>| relinked_line(l, d)));
        assert(m.last() == relinked_line(ls.last(), d));
        if is_directive_line(ls.last()) {
            assert(fi.len() == 0);
            assert(Seq::<Seq<char>>::empty() + crate::domain::entities::line_parents(d) =~= crate::domain::entities::line_parents(d));
        } else {
            lemma_plain_line_no_parents(ls.last());
            assert(crate::domain::entities::parent_specs(m) =~= crate::domain::entities::parent_specs(m.drop_last()));
        }
    }
}

/// The directive line written for a one-word parent reference names just
/// that reference.
proof fn lemma_directive_names(parent_ref: Seq<char>)
    requires
        parent_ref.len() > 0,
        forall|i: int| 0 <= i < parent_ref.len() ==> !crate::text::is_ws(#[trigger] parent_ref[i]),
    ensures
        crate::domain::entities::line_parents("# rsenv: "@ + parent_ref) == seq![parent_ref],
        crate::text::no_newline("# rsenv: "@ + parent_ref),
        crate::text::strip_cr("# rsenv: "@ + parent_ref) == "# rsenv: "@ + parent_ref,
{
    reveal_strlit("# rsenv: ");
    let d = "# rsenv: "@ + parent_ref;
    assert(!crate::text::is_ws(d[0]));
    assert(crate::text::trim_start(d) == d);
    assert(d.last() == parent_ref.last());
    assert(!crate::text::is_ws(d.last()));
    assert(crate::text::trim_end(d) == d);
    assert(trim(d) == d);
    assert(d.subrange(0, 8) =~= directive());
    assert(d.skip(8) =~= seq![' '] + parent_ref);
    assert(crate::text::is_ws(' '));
    assert((seq![' '] + parent_ref).drop_first() =~= parent_ref);
    lemma_split_ws_word(parent_ref);
    assert forall|j: int| 0 <= j < d.len() implies d[j] != '\n' by {
        if j >= 9 {
            assert(d[j] == parent_ref[j - 9]);
            assert(crate::text::is_ws('\n'));
        }
    }
    assert(d.last() != '\r') by {
        assert(crate::text::is_ws('\r'));
    }
}

/// The lines of content whose directives are replaced by `rep`.
proof fn lemma_replaced_lines(content: Seq<char>, rep: Seq<char>)
    requires
        directive_count(content) == 1,
        crate::text::no_newline(rep),
    ensures
        lines(directives_replaced(content, rep)) == lines(content).map_values(|l: Seq<char>| relinked_line(l, rep)),
{
    reveal_with_fuel(Seq::filter, 1);
    let ls = lines(content);
    let ks = ls.map_values(|l: Seq<char>| if is_directive_line(l) { rep } else { l });
    assert(ls.len() > 0) by {
        if ls.len() == 0 {
            assert(ls.filter(|l: Seq<char>| is_directive_line(l)) =~= ls);
        }
    }
    assert(replaced_lines(ls, rep) =~= ks);
    assert(directives_replaced(content, rep) == join(ks, seq!['\n']) + seq!['\n']);
    crate::text::lemma_join_newline_concat(ks);
    crate::text::lemma_lines_no_newline(content);
    assert forall|k: int| 0 <= k < ks.len() implies crate::text::no_newline(#[trigger] ks[k]) by {
        assert(crate::text::no_newline(ls[k]));
    }
    crate::text::lemma_lines_of_concat(ks);
    assert(ks.map_values(|l: Seq<char>| crate::text::strip_cr(l)) =~= ls.map_values(|l: Seq<char>| relinked_line(l, rep)));
}

/// Linking a file to a one-word parent reference leaves that reference as
/// the only parent its directive names.
pub proof fn lemma_linked_names_parent(content: Seq<char>, parent_ref: Seq<char>)
    requires
        parent_ref.len() > 0,
        forall|i: int| 0 <= i < parent_ref.len() ==> !crate::text::is_ws(#[trigger] parent_ref[i]),
    ensures
        spec_linked(content, parent_ref) matches Ok(t) ==> crate::domain::entities::parent_specs(lines(t)) == seq![parent_ref],
{
    lemma_directive_names(parent_ref);
    let d = "# rsenv: "@ + parent_ref;
    let n = directive_count(content);
    if n == 0 {
        let t = d + seq!['\n'] + content;
        crate::text::lemma_lines_concat(d + seq!['\n'], content);
        crate::text::lemma_lines_append_line(Seq::<char>::empty(), d);
        assert(Seq::<char>::empty() + d + seq!['\n'] =~= d + seq!['\n']);
        assert(lines(Seq::<char>::empty()) == Seq::<Seq<char>>::empty());
        assert(lines(d + seq!['\n']) =~= seq![d]);
        lemma_no_directives_no_parents(lines(content));
        lemma_parent_specs_append(seq![d], lines(content));
        assert(seq![d].drop_last() =~= Seq::<Seq<char>>::empty());
        assert(seq![d].last() == d);
        assert(crate::domain::entities::parent_specs(Seq::<Seq<char>>::empty()) == Seq::<Seq<char>>::empty());
        assert(crate::domain::entities::parent_specs(seq![d]) == crate::domain::entities::parent_specs(seq![d].drop_last()) + crate::domain::entities::line_parents(d));
        assert(crate::domain::entities::parent_specs(seq![d]) =~= seq![parent_ref]);
        assert(seq![parent_ref] + Seq::<Seq<char>>::empty() =~= seq![parent_ref]);
    } else if n == 1 {
        lemma_replaced_lines(content, d);
        lemma_relinked_parents(lines(content), d);
    }
}

/// Unlinking a file leaves no parent named, and a file that was left as it
/// is had none.
pub proof fn lemma_unlinked_names_none(content: Seq<char>)
    ensures
        spec_unlinked(content) matches Ok(Some(t)) ==> crate::domain::entities::parent_specs(lines(t)) == Seq::<Seq<char>>::empty(),
        spec_unlinked(content) matches Ok(None) ==> crate::domain::entities::parent_specs(lines(content)) == Seq::<Seq<char>>::empty(),
{
    let n = directive_count(content);
    let d = "# rsenv:"@;
    if n == 0 {
        lemma_no_directives_no_parents(lines(content));
    } else if n == 1 {
        reveal_strlit("# rsenv:");
        assert(d =~= directive());
        assert(crate::text::trim_start(d) == d);
        assert(crate::text::trim_end(d) == d);
        assert(d.skip(8) =~= Seq::<char>::empty());
        assert(split_ws(Seq::<char>::empty()) == Seq::<Seq<char>>::empty());
        assert(crate::domain::entities::line_parents(d) == Seq::<Seq<char>>::empty());
        assert(crate::text::no_newline(d));
        assert(crate::text::strip_cr(d) == d);
        lemma_replaced_lines(content, d);
        lemma_relinked_parents(lines(content), d);
    }
}

/// `rsenv` directive line test on a line.
fn is_directive_exec(l: &Vec<char>) -> (b: bool)
    ensures
        b == is_directive_line(l@),
{
    let t = trim_vec(l);
    let d = vec!['#', ' ', 'r', 's', 'e', 'n', 'v', ':'];
    assert(d@ =~= directive());
    starts_with_vec(&t, &d)
}

impl<F: FileSystem> EnvironmentService<F> {
    /// Create a new environment service.
    pub fn new(fs: F) -> (r: Self)
        ensures
            r.fs == fs,
    {
        EnvironmentService { fs }
    }
}

/// The parent reference used when no relative path can be had: the
/// parent's file name, else the parent path itself.
pub open spec fn reference_fallback(p: Seq<char>) -> Seq<char> {
    match file_name(p) {
        Some(n) => n,
        None => p,
    }
}

/// The parent reference written into `child`, given the canonical forms
/// of the parent (`None` when it could not be had) and of the child's
/// directory (`None` when it could not be had, and the directory is then
/// used as written): the parent relative to the child's directory, else
/// the fallback.
pub open spec fn spec_parent_reference(parent: Seq<char>, child: Seq<char>, parent_abs: Option<Seq<char>>, child_dir_abs: Option<Seq<char>>) -> Seq<char> {
    match crate::pathstr::parent(child) {
        None => reference_fallback(parent),
        Some(d) => match parent_abs {
            None => reference_fallback(parent),
            Some(pa) => {
                let cd = match child_dir_abs {
                    Some(c) => c,
                    None => d,
                };
                match spec_diff_paths(pa, cd) {
                    Some(rel) => rel,
                    None => reference_fallback(parent),
                }
            },
        },
    }
}

/// The parent reference written into `child`, given the canonical forms of
/// the parent and of the child's directory as far as they could be had.
pub fn parent_reference_from(parent: &str, child: &str, parent_abs: &Option<String>, child_dir_abs: &Option<String>) -> (r: String)
    ensures
        r@ == spec_parent_reference(parent@, child@, opt_text(*parent_abs), opt_text(*child_dir_abs)),
{
    let pv = chars_of(parent);
    let fallback = match file_name_vec(&pv) {
        Some(n) => string_of(&n),
        None => parent.to_owned(),
    };
    assert(fallback@ == reference_fallback(parent@));
    let cv = chars_of(child);
    let child_dir = match parent_vec(&cv) {
        Some(d) => string_of(&d),
        None => return fallback,
    };
    let pa = match parent_abs {
        Some(p) => p,
        None => return fallback,
    };
    let cd = match child_dir_abs {
        Some(c) => c.clone(),
        None => child_dir,
    };
    match diff_paths(pa.as_str(), cd.as_str()) {
        Some(rel) => rel,
        None => fallback,
    }
}

/// Service for building hierarchical environment variables.
pub struct EnvironmentService<F: FileSystem> {
    pub fs: F,
}

/// Count the lines of `content` that are parent directives.
pub fn count_rsenv_directives(content: &str) -> (r: usize)
    ensures
        r == directive_count(content@),
{
    let cv = chars_of(content);
    let ls = split_lines(&cv);
    let ghost pred = |l: Seq<char>| is_directive_line(l);
    let mut n: usize = 0;
    let mut i: usize = 0;
    assert(views(ls@).take(0).filter(pred) =~= Seq::<Seq<char>>::empty());
    while i < ls.len()
        invariant
            i <= ls.len(),
            pred == (|l: Seq<char>| is_directive_line(l)),
            n == views(ls@).take(i as int).filter(pred).len(),
            n <= i,
        decreases ls.len() - i,
    {
        let ghost li = views(ls@)[i as int];
        assert(li == ls@[i as int]@);
        assert(views(ls@).take(i + 1) =~= views(ls@).take(i as int).push(li));
        proof {
            reveal_with_fuel(Seq::filter, 1);
            assert(views(ls@).take(i as int).push(li).drop_last() =~= views(ls@).take(i as int));
        }
        if is_directive_exec(&ls[i]) {
            n = n + 1;
        }
        i = i + 1;
    }
    assert(views(ls@).take(i as int) =~= views(ls@));
    n
}

/// Every directive line of `content` replaced by `replacement`.
pub fn replace_rsenv_directive_lines(content: &str, replacement: &str) -> (r: String)
    ensures
        r@ == directives_replaced(content@, replacement@),
{
    let cv = chars_of(content);
    let rep = chars_of(replacement);
    let ls = split_lines(&cv);
    let ghost f = |l: Seq<char>| if is_directive_line(l) { replacement@ } else { l };
    let mut out: Vec<Vec<char>> = Vec::new();
    let mut i: usize = 0;
    while i < ls.len()
        invariant
            i <= ls.len(),
            rep@ == replacement@,
            f == (|l: Seq<char>| if is_directive_line(l) { replacement@ } else { l }),
            views(out@) =~= views(ls@).take(i as int).map_values(f),
        decreases ls.len() - i,
    {
        let ghost li = views(ls@)[i as int];
        assert(li == ls@[i as int]@);
        let c = if is_directive_exec(&ls[i]) {
            crate::text::copy_vec(&rep)
        } else {
            crate::text::copy_vec(&ls[i])
        };
        let ghost old_out = views(out@);
        out.push(c);
        assert(views(out@) =~= old_out.push(f(li)));
        assert(views(ls@).take(i + 1) =~= views(ls@).take(i as int).push(li));
        i = i + 1;
    }
    assert(views(ls@).take(i as int) =~= views(ls@));
    assert(views(out@) =~= replaced_lines(views(ls@), replacement@));
    let mut r = join_newline(&out);
    r.push('\n');
    string_of(&r)
}

/// The content after linking it to `parent_ref` (see `spec_linked`).
pub fn linked_content(content: &str, parent_ref: &str) -> (r: Result<String, usize>)
    ensures
        match r {
            Ok(t) => spec_linked(content@, parent_ref@) == Ok::<Seq<char>, nat>(t@),
            Err(n) => spec_linked(content@, parent_ref@) == Err::<Seq<char>, nat>(n as nat),
        },
{
    let n = count_rsenv_directives(content);
    if n > 1 {
        return Err(n);
    }
    let mut d = chars_of("# rsenv: ");
    push_str(&mut d, parent_ref);
    let ds = string_of(&d);
    assert(d@ =~= "# rsenv: "@ + parent_ref@);
    if n == 0 {
        let mut r = d;
        r.push('\n');
        push_str(&mut r, content);
        assert(r@ =~= "# rsenv: "@ + parent_ref@ + seq!['\n'] + content@);
        Ok(string_of(&r))
    } else {
        Ok(replace_rsenv_directive_lines(content, ds.as_str()))
    }
}

/// The content after emptying its parent link (see `spec_unlinked`).
pub fn unlinked_content(content: &str) -> (r: Result<Option<String>, usize>)
    ensures
        match r {
            Ok(Some(t)) => spec_unlinked(content@) == Ok::<Option<Seq<char>>, nat>(Some(t@)),
            Ok(None) => spec_unlinked(content@) == Ok::<Option<Seq<char>>, nat>(None),
            Err(n) => spec_unlinked(content@) == Err::<Option<Seq<char>>, nat>(n as nat),
        },
{
    let n = count_rsenv_directives(content);
    if n > 1 {
        return Err(n);
    }
    if n == 0 {
        return Ok(None);
    }
    Ok(Some(replace_rsenv_directive_lines(content, "# rsenv:")))
}

/// Some entry has the name `k`.
pub open spec fn defines_name(e: Seq<(String, String)>, k: Seq<char>) -> bool {
    exists|w: Seq<char>| #[trigger] has_entry(e, k, w)
}

// ------------------------------------------------------------------
// Merging the hierarchy
// ------------------------------------------------------------------

/// `files[i]` is the first file (leaf side) that defines `k`, with `v`.
pub open spec fn first_definition(files: Seq<EnvFile>, k: Seq<char>, v: Seq<char>, from: int) -> bool {
    exists|i: int| from <= i < files.len() && #[trigger] files[i].variables.maps(k, v) && forall|j: int, w: Seq<char>| from <= j < i ==> !#[trigger] files[j].variables.maps(k, w)
}

/// Merge the variables of `files`: a file earlier in the list (closer to the
/// leaf) overrides the files after it.
pub fn merge_variables(files: &Vec<EnvFile>) -> (r: VarMap)
    requires
        forall|i: int| 0 <= i < files.len() ==> (#[trigger] files[i]).variables.wf(),
    ensures
        r.wf(),
        forall|k: Seq<char>, v: Seq<char>| #[trigger] r.maps(k, v) == first_definition(files@, k, v, 0),
{
    let mut out = VarMap::new();
    let mut i: usize = files.len();
    while i > 0
        invariant
            i <= files.len(),
            out.wf(),
            forall|q: int| 0 <= q < files.len() ==> (#[trigger] files[q]).variables.wf(),
            forall|k: Seq<char>, v: Seq<char>| #[trigger] out.maps(k, v) == first_definition(files@, k, v, i as int),
        decreases i,
    {
        let f = &files[i - 1];
        let es = f.variables.entries();
        let ghost before = out;
        let mut m: usize = 0;
        while m < es.len()
            invariant
                m <= es.len(),
                out.wf(),
                crate::text::sorted_unique(names(es@)),
                forall|k: Seq<char>, v: Seq<char>| has_entry(es@, k, v) == f.variables.maps(k, v),
                forall|k: Seq<char>, v: Seq<char>| #[trigger] out.maps(k, v) == if has_entry(es@.take(m as int), k, v) {
                    true
                } else if defines_name(es@.take(m as int), k) {
                    false
                } else {
                    before.maps(k, v)
                },
            decreases es.len() - m,
        {
            let k = crate::config::copy_string(&es[m].0);
            let v = crate::config::copy_string(&es[m].1);
            let ghost kk = es@[m as int].0@;
            let ghost vv = es@[m as int].1@;
            let ghost prev = out;
            out.insert(k, v);
            proof {
                assert forall|t: Seq<char>, w: Seq<char>| #[trigger] out.maps(t, w) == if has_entry(es@.take(m + 1), t, w) {
                    true
                } else if defines_name(es@.take(m + 1), t) {
                    false
                } else {
                    before.maps(t, w)
                } by {
                    let tm = es@.take(m as int);
                    let tm1 = es@.take(m + 1);
                    assert(tm1[m as int] == es@[m as int]);
                    if has_entry(tm, t, w) {
                        let j = choose|j: int| 0 <= j < tm.len() && #[trigger] tm[j].0@ == t && tm[j].1@ == w;
                        assert(tm1[j] == tm[j]);
                    }
                    if has_entry(tm1, t, w) {
                        let j = choose|j: int| 0 <= j < tm1.len() && #[trigger] tm1[j].0@ == t && tm1[j].1@ == w;
                        if j < m {
                            assert(tm[j] == tm1[j]);
                        }
                    }
                    if t == kk {
                        assert(has_entry(tm1, t, vv)) by {
                            assert(tm1[m as int].0@ == t && tm1[m as int].1@ == vv);
                        }
                        if has_entry(tm1, t, w) {
                            let j = choose|j: int| 0 <= j < tm1.len() && #[trigger] tm1[j].0@ == t && tm1[j].1@ == w;
                            crate::domain::vars::lemma_unique_name(es@, j, m as int);
                        }
                    } else {
                        if defines_name(tm1, t) {
                            let x = choose|x: Seq<char>| #[trigger] has_entry(tm1, t, x);
                            let j = choose|j: int| 0 <= j < tm1.len() && #[trigger] tm1[j].0@ == t && tm1[j].1@ == x;
                            assert(j < m);
                            assert(tm[j] == tm1[j]);
                            assert(has_entry(tm, t, x));
                        }
                        if defines_name(tm, t) {
                            let x = choose|x: Seq<char>| #[trigger] has_entry(tm, t, x);
                            let j = choose|j: int| 0 <= j < tm.len() && #[trigger] tm[j].0@ == t && tm[j].1@ == x;
                            assert(tm1[j] == tm[j]);
                            assert(has_entry(tm1, t, x));
                        }
                    }
                }
            }
            m = m + 1;
        }
        proof {
            assert(es@.take(m as int) =~= es@);
            assert forall|k: Seq<char>, v: Seq<char>| #[trigger] out.maps(k, v) == first_definition(files@, k, v, i - 1) by {
                if f.variables.maps(k, v) {
                    assert(files@[i - 1].variables.maps(k, v));
                }
                if exists|w: Seq<char>| f.variables.maps(k, w) {
                    let w = choose|w: Seq<char>| f.variables.maps(k, w);
                    if first_definition(files@, k, v, i - 1) {
                        let q = choose|q: int| i - 1 <= q < files@.len() && #[trigger] files@[q].variables.maps(k, v) && forall|j: int, w2: Seq<char>| i - 1 <= j < q ==> !#[trigger] files@[j].variables.maps(k, w2);
                        if q > i - 1 {
                            assert(!files@[i - 1].variables.maps(k, w));
                        }
                    }
                } else {
                    if first_definition(files@, k, v, i as int) {
                        let q = choose|q: int| i <= q < files@.len() && #[trigger] files@[q].variables.maps(k, v) && forall|j: int, w2: Seq<char>| i <= j < q ==> !#[trigger] files@[j].variables.maps(k, w2);
                        assert forall|j: int, w2: Seq<char>| i - 1 <= j < q implies !#[trigger] files@[j].variables.maps(k, w2) by {
                            if j == i - 1 {
                            }
                        }
                    }
                    if first_definition(files@, k, v, i - 1) {
                        let q = choose|q: int| i - 1 <= q < files@.len() && #[trigger] files@[q].variables.maps(k, v) && forall|j: int, w2: Seq<char>| i - 1 <= j < q ==> !#[trigger] files@[j].variables.maps(k, w2);
                        assert(q != i - 1);
                        assert forall|j: int, w2: Seq<char>| i <= j < q implies !#[trigger] files@[j].variables.maps(k, w2) by {}
                    }
                }
            }
        }
        i = i - 1;
    }
    out
}

// ------------------------------------------------------------------
// Operations on the filesystem
// ------------------------------------------------------------------

/// The parents a directive anywhere in a line names: the words after the
/// first `# rsenv:`.
pub open spec fn directive_words(line: Seq<char>) -> Seq<Seq<char>> {
    match crate::text::find(line, directive()) {
        Some(i) => split_ws(line.skip(i + directive().len())),
        None => seq![],
    }
}

/// The parents a directive anywhere in a line names.
pub fn directive_words_exec(line: &Vec<char>) -> (r: Vec<Vec<char>>)
    ensures
        views(r@) == directive_words(line@),
{
    let d = chars_of("# rsenv:");
    proof {
        reveal_strlit("# rsenv:");
        assert(d@ =~= directive());
    }
    match crate::text::find_vec(line, &d) {
        Some(i) => {
            proof {
                crate::text::lemma_find_from(line@, d@, 0);
                assert(crate::text::occurs_at(line@, d@, i as int));
                assert(i + d@.len() <= line@.len());
            }
            let dl = d.len();
            assert(i + dl <= line.len());
            let start = i + dl;
            let rest = crate::text::slice(line, start, line.len());
            assert(rest@ =~= line@.skip(i + directive().len()));
            split_whitespace(&rest)
        },
        None => Vec::new(),
    }
}

/// The files are sorted by path order.
pub open spec fn sorted_by_file(v: Seq<MultiParentFile>) -> bool {
    forall|i: int, j: int| 0 <= i < j < v.len() ==> !crate::pathstr::path_lt(#[trigger] v[j].file@, #[trigger] v[i].file@)
}

/// Put `x` into a list sorted by path, after every entry that does not
/// follow it.
fn insert_by_file(v: &mut Vec<MultiParentFile>, x: MultiParentFile)
    requires
        sorted_by_file(old(v)@),
    ensures
        sorted_by_file(final(v)@),
        final(v)@.len() == old(v)@.len() + 1,
        forall|i: int| 0 <= i < old(v)@.len() ==> #[trigger] final(v)@.contains(old(v)@[i]),
        final(v)@.contains(x),
        forall|i: int| 0 <= i < final(v)@.len() ==> #[trigger] final(v)@[i] == x || old(v)@.contains(final(v)@[i]),
{
    let xf = chars_of(x.file.as_str());
    let mut k: usize = 0;
    while k < v.len() && !crate::pathstr::path_lt_exec(&xf, &chars_of(v[k].file.as_str()))
        invariant
            k <= v.len(),
            xf@ == x.file@,
            forall|i: int| 0 <= i < k ==> !crate::pathstr::path_lt(x.file@, #[trigger] v@[i].file@),
        decreases v.len() - k,
    {
        k = k + 1;
    }
    let ghost old_v = v@;
    v.insert(k, x);
    proof {
        assert(v@ =~= old_v.insert(k as int, x));
        assert forall|i: int, j: int| 0 <= i < j < v@.len() implies !crate::pathstr::path_lt(#[trigger] v@[j].file@, #[trigger] v@[i].file@) by {
            if j < k {
                assert(v@[i] == old_v[i] && v@[j] == old_v[j]);
            } else if j == k {
                assert(v@[i] == old_v[i]);
            } else if i == k {
                assert(v@[j] == old_v[j - 1]);
                crate::pathstr::lemma_path_order(old_v[j - 1].file@, x.file@, old_v[k as int].file@);
                if j - 1 > k {
                    assert(!crate::pathstr::path_lt(old_v[j - 1].file@, old_v[k as int].file@));
                }
            } else if i < k {
                assert(v@[i] == old_v[i] && v@[j] == old_v[j - 1]);
            } else {
                assert(v@[i] == old_v[i - 1] && v@[j] == old_v[j - 1]);
            }
        }
        assert forall|i: int| 0 <= i < old_v.len() implies #[trigger] v@.contains(old_v[i]) by {
            if i < k {
                assert(v@[i] == old_v[i]);
            } else {
                assert(v@[i + 1] == old_v[i]);
            }
        }
        assert(v@[k as int] == x);
        assert forall|i: int| 0 <= i < v@.len() implies #[trigger] v@[i] == x || old_v.contains(v@[i]) by {
            if i < k {
                assert(v@[i] == old_v[i]);
            } else if i > k {
                assert(v@[i] == old_v[i - 1]);
            }
        }
    }
}

/// `strs` of a list of paths contains `p`.
pub open spec fn names_path(v: Seq<String>, p: Seq<char>) -> bool {
    exists|i: int| 0 <= i < v.len() && #[trigger] v[i]@ == p
}

/// The files form a hierarchy walk from `leaf`: the leaf comes first and
/// every later file is a parent named by an earlier one.
pub open spec fn hierarchy_walk(files: Seq<EnvFile>, leaf: Seq<char>) -> bool {
    &&& files.len() >= 1
    &&& files[0].path@ == leaf
    &&& forall|i: int| 0 <= i < files.len() ==> (#[trigger] files[i]).variables.wf()
    &&& forall|i: int| 1 <= i < files.len() ==> exists|j: int| 0 <= j < i && names_path(files[j].parents@, (#[trigger] files[i]).path@)
}

pub fn contains_string(v: &Vec<String>, x: &String) -> (b: bool)
    ensures
        b == names_path(v@, x@),
{
    let mut i: usize = 0;
    while i < v.len()
        invariant
            i <= v.len(),
            forall|j: int| 0 <= j < i ==> #[trigger] v@[j]@ != x@,
        decreases v.len() - i,
    {
        if v[i] == *x {
            return true;
        }
        i = i + 1;
    }
    false
}

/// `pathdiff::diff_paths(path, base)`, relative path from `base` to `path`.
pub uninterp spec fn spec_diff_paths(path: Seq<char>, base: Seq<char>) -> Option<Seq<char>>;

/// `pathdiff::diff_paths`: the path of `path` relative to `base`. The
/// result is named; the crate's source gives `path` itself when only
/// `path` is absolute, and no result when only `base` is.
#[verifier::external_body]
pub(crate) fn diff_paths(path: &str, base: &str) -> (r: Option<String>)
    ensures
        opt_text(r) == spec_diff_paths(path@, base@),
        is_absolute(path@) && !is_absolute(base@) ==> opt_text(r) == Some(path@),
        !is_absolute(path@) && is_absolute(base@) ==> opt_text(r) is None,
{
    pathdiff::diff_paths(path, base).map(|p| p.to_string_lossy().into_owned())
}

/// The parents of a file that the walk queues, given the canonical paths
/// already visited (the file's own among them): taken from the last parent
/// to the first, those whose path is no visited one.
pub open spec fn spec_parents_to_queue(visited: Seq<String>, parents: Seq<String>, p: int) -> Seq<Seq<char>>
    decreases p,
{
    if p <= 0 || p > parents.len() {
        seq![]
    } else {
        (if names_path(visited, parents[p - 1]@) {
            Seq::<Seq<char>>::empty()
        } else {
            seq![parents[p - 1]@]
        }) + spec_parents_to_queue(visited, parents, p - 1)
    }
}

/// A parent path is not among the visited canonical paths.
pub open spec fn not_visited(visited: Seq<String>) -> spec_fn(Seq<char>) -> bool {
    |p: Seq<char>| !names_path(visited, p)
}

/// The walk takes a file's parents right to left: the parents it queues are
/// the unvisited ones among them in reverse order of the directive, so of
/// two sibling parents the one named last is walked first (and its
/// definitions win over the earlier sibling's).
pub proof fn law_parents_queued_right_to_left(visited: Seq<String>, parents: Seq<String>, p: int)
    requires
        0 <= p <= parents.len(),
    ensures
        spec_parents_to_queue(visited, parents, p) == crate::config::strs(parents.take(p)).reverse().filter(not_visited(visited)),
    decreases p,
{
    let pred = not_visited(visited);
    if p == 0 {
        assert(crate::config::strs(parents.take(0)) =~= Seq::<Seq<char>>::empty());
        assert(crate::config::strs(parents.take(0)).reverse() =~= Seq::<Seq<char>>::empty());
        reveal(Seq::filter);
        assert(Seq::<Seq<char>>::empty().filter(pred) =~= Seq::<Seq<char>>::empty());
    } else {
        law_parents_queued_right_to_left(visited, parents, p - 1);
        let x = parents[p - 1]@;
        let before = crate::config::strs(parents.take(p - 1));
        assert(crate::config::strs(parents.take(p)) =~= before.push(x));
        assert(before.push(x).reverse() =~= seq![x] + before.reverse());
        before.reverse().lemma_filter_prepend(x, pred);
        assert(pred(x) == !names_path(visited, x));
    }
}

/// The parents of a file that the walk queues, last parent first, leaving
/// out those already visited.
pub fn parents_to_queue(visited: &Vec<String>, parents: &Vec<String>) -> (r: Vec<String>)
    ensures
        crate::config::strs(r@) == spec_parents_to_queue(visited@, parents@, parents@.len() as int),
        crate::config::strs(r@) == crate::config::strs(parents@).reverse().filter(not_visited(visited@)),
        forall|i: int| 0 <= i < r.len() ==> names_path(parents@, (#[trigger] r@[i])@),
{
    let mut out: Vec<String> = Vec::new();
    let mut p: usize = parents.len();
    while p > 0
        invariant
            p <= parents.len(),
            crate::config::strs(out@) + spec_parents_to_queue(visited@, parents@, p as int)
                == spec_parents_to_queue(visited@, parents@, parents@.len() as int),
            forall|i: int| 0 <= i < out.len() ==> names_path(parents@, (#[trigger] out@[i])@),
        decreases p,
    {
        let parent = &parents[p - 1];
        let ghost before = crate::config::strs(out@);
        let ghost rest = spec_parents_to_queue(visited@, parents@, p - 1);
        if !contains_string(visited, parent) {
            out.push(parent.clone());
            proof {
                assert(crate::config::strs(out@) =~= before.push(parent@));
                assert(spec_parents_to_queue(visited@, parents@, p as int) == seq![parent@] + rest);
                assert(crate::config::strs(out@) + rest =~= before + (seq![parent@] + rest));
                assert(names_path(parents@, parents@[p - 1]@));
            }
        } else {
            proof {
                assert(spec_parents_to_queue(visited@, parents@, p as int) =~= rest);
            }
        }
        p = p - 1;
    }
    assert(spec_parents_to_queue(visited@, parents@, 0) =~= Seq::<Seq<char>>::empty());
    assert(crate::config::strs(out@) =~= crate::config::strs(out@) + Seq::<Seq<char>>::empty());
    proof {
        law_parents_queued_right_to_left(visited@, parents@, parents@.len() as int);
        assert(parents@.take(parents@.len() as int) =~= parents@);
    }
    out
}

impl<F: FileSystem> EnvironmentService<F> {
    /// Build merged environment variables from a leaf file: collect the
    /// hierarchy breadth-first from the leaf, then merge so that files closer
    /// to the leaf override their parents.
    pub fn build(&self, leaf: &str) -> (r: Result<EnvOutput, ApplicationError>)
        ensures
            r matches Ok(out) ==> {
                &&& hierarchy_walk(out.files@, leaf@)
                &&& out.variables.wf()
                &&& forall|k: Seq<char>, v: Seq<char>| #[trigger] out.variables.maps(k, v) == first_definition(out.files@, k, v, 0)
            },
            r matches Err(e) ==> e is OperationFailed,
    {
        let files = match self.collect_hierarchy(leaf) {
            Ok(f) => f,
            Err(e) => return Err(e),
        };
        let variables = merge_variables(&files);
        Ok(EnvOutput { variables, files })
    }

    /// Collect all files in the hierarchy via breadth-first traversal from
    /// the leaf, skipping files already visited (by canonical path).
    pub fn collect_hierarchy(&self, leaf: &str) -> (r: Result<Vec<EnvFile>, ApplicationError>)
        ensures
            r matches Ok(files) ==> hierarchy_walk(files@, leaf@),
            r matches Err(e) ==> e is OperationFailed,
    {
        let mut visited: Vec<String> = Vec::new();
        let mut queue: Vec<String> = Vec::new();
        queue.push(leaf.to_owned());
        let mut head: usize = 0;
        let mut result: Vec<EnvFile> = Vec::new();
        while head < queue.len()
            invariant
                head <= queue.len(),
                queue.len() >= 1,
                queue@[0]@ == leaf@,
                result.len() == 0 ==> head == 0 && queue.len() == 1 && visited.len() == 0,
                result.len() > 0 ==> head >= 1 && result@[0].path@ == leaf@,
                forall|i: int| 0 <= i < result.len() ==> (#[trigger] result@[i]).variables.wf(),
                forall|i: int| 1 <= i < result.len() ==> exists|j: int| 0 <= j < i && names_path(result@[j].parents@, (#[trigger] result@[i]).path@),
                forall|q: int| 1 <= q < queue.len() ==> exists|j: int| 0 <= j < result.len() && names_path(result@[j].parents@, (#[trigger] queue@[q])@),
            decreases usize::MAX - result.len(), queue.len() - head,
        {
            if result.len() == usize::MAX {
                return Err(detected(context2("hierarchy too large: ", leaf), IoKind::InvalidData, "too many files"));
            }
            let current = queue[head].clone();
            let ghost qh = head as int;
            head = head + 1;
            if !self.fs.path_exists(current.as_str()) {
                return Err(detected(context2("file not found: ", current.as_str()), IoKind::NotFound, "file does not exist"));
            }
            let canonical = match self.fs.canonicalize(current.as_str()) {
                Ok(c) => c,
                Err(e) => return Err(io_failed(context2("canonicalize ", current.as_str()), e)),
            };
            if contains_string(&visited, &canonical) {
                continue;
            }
            visited.push(canonical);
            let content = match self.fs.read_to_string(current.as_str()) {
                Ok(c) => c,
                Err(e) => return Err(io_failed(context2("read env file ", current.as_str()), e)),
            };
            let env_file = match EnvFile::parse(content.as_str(), current.clone()) {
                Ok(f) => f,
                Err(_) => return Err(detected(context2("parse env file ", current.as_str()), IoKind::InvalidData, "invalid env file")),
            };
            let ghost new_index = result.len() as int;
            let ghost queue_before = queue@;
            let to_queue = parents_to_queue(&visited, &env_file.parents);
            let mut p: usize = 0;
            while p < to_queue.len()
                invariant
                    p <= to_queue.len(),
                    forall|i: int| 0 <= i < to_queue.len() ==> names_path(env_file.parents@, (#[trigger] to_queue@[i])@),
                    queue.len() >= queue_before.len(),
                    forall|q: int| 0 <= q < queue_before.len() ==> #[trigger] queue@[q] == queue_before[q],
                    forall|q: int| queue_before.len() <= q < queue.len() ==> names_path(env_file.parents@, (#[trigger] queue@[q])@),
                decreases to_queue.len() - p,
            {
                let parent = &to_queue[p];
                if !self.fs.path_exists(parent.as_str()) {
                    return Err(detected(context2("parent file not found: ", parent.as_str()), IoKind::NotFound, "parent file not found"));
                }
                queue.push(parent.clone());
                assert(names_path(env_file.parents@, to_queue@[p as int]@));
                p = p + 1;
            }
            let ghost old_result = result@;
            result.push(env_file);
            proof {
                assert(result@[new_index].path@ == current@);
                assert forall|q: int| 1 <= q < queue.len() implies exists|j: int| 0 <= j < result.len() && names_path(result@[j].parents@, (#[trigger] queue@[q])@) by {
                    if q < queue_before.len() {
                        assert(queue@[q] == queue_before[q]);
                        let j = choose|j: int| 0 <= j < old_result.len() && names_path(old_result[j].parents@, queue_before[q]@);
                        assert(result@[j] == old_result[j]);
                    } else {
                        assert(names_path(result@[new_index].parents@, queue@[q]@));
                    }
                }
                assert forall|i: int| 1 <= i < result.len() implies exists|j: int| 0 <= j < i && names_path(result@[j].parents@, (#[trigger] result@[i]).path@) by {
                    if i < new_index {
                        let j = choose|j: int| 0 <= j < i && names_path(old_result[j].parents@, old_result[i].path@);
                        assert(result@[j] == old_result[j]);
                        assert(result@[i] == old_result[i]);
                    } else {
                        assert(qh >= 1);
                        assert(queue@[qh] == queue_before[qh]);
                        let j = choose|j: int| 0 <= j < old_result.len() && names_path(old_result[j].parents@, queue_before[qh]@);
                        assert(result@[j] == old_result[j]);
                    }
                }
            }
        }
        Ok(result)
    }

    /// The env files directly in `dir` (extension `.env`, backups left out)
    /// that can be read and parsed.
    pub fn get_hierarchy(&self, dir: &str) -> (r: Result<EnvHierarchy, ApplicationError>)
        ensures
            r matches Ok(h) ==> forall|i: int| 0 <= i < h.files.len() ==> (#[trigger] h.files@[i]).variables.wf() && extension(h.files@[i].path@) == Some("env"@) && !spec_is_backup(h.files@[i].path@),
    {
        let entries = walk_dir(dir, 1);
        let mut files: Vec<EnvFile> = Vec::new();
        let mut i: usize = 0;
        while i < entries.len()
            invariant
                i <= entries.len(),
                forall|j: int| 0 <= j < files.len() ==> (#[trigger] files@[j]).variables.wf() && extension(files@[j].path@) == Some("env"@) && !spec_is_backup(files@[j].path@),
            decreases entries.len() - i,
        {
            let entry = &entries[i];
            i = i + 1;
            if !entry.is_file {
                continue;
            }
            let is_env = match extension_vec(&chars_of(entry.path.as_str())) {
                Some(e) => crate::text::eq_str(&e, "env"),
                None => false,
            };
            if !is_env || is_backup(entry.path.as_str()) {
                continue;
            }
            let content = match self.fs.read_to_string(entry.path.as_str()) {
                Ok(c) => c,
                Err(_) => continue,
            };
            if let Ok(env_file) = EnvFile::parse(content.as_str(), entry.path.clone()) {
                files.push(env_file);
            }
        }
        Ok(EnvHierarchy { files })
    }

    /// Reset a vault's `envs/` to the default env files: with `clear`, the
    /// files there are deleted, else each (backups aside) is renamed to its
    /// backup name. Returns how many files were swept and how many written.
    pub fn init_files(&self, envs_dir: &str, clear: bool) -> (r: Result<(usize, usize), ApplicationError>)
        ensures
            r matches Ok((_, written)) ==> written == 6,
    {
        match self.fs.create_dir_all(envs_dir) {
            Ok(()) => {},
            Err(e) => return Err(io_failed(context2("create envs directory: ", envs_dir), e)),
        }
        let entries = walk_dir(envs_dir, 1);
        let mut swept: usize = 0;
        let mut i: usize = 0;
        while i < entries.len()
            invariant
                i <= entries.len(),
                swept <= i,
            decreases entries.len() - i,
        {
            let entry = &entries[i];
            i = i + 1;
            if !entry.is_file {
                continue;
            }
            if clear {
                match self.fs.remove_file(entry.path.as_str()) {
                    Ok(()) => {},
                    Err(e) => return Err(io_failed(context2("remove env file: ", entry.path.as_str()), e)),
                }
                swept = swept + 1;
                continue;
            }
            if is_backup(entry.path.as_str()) {
                continue;
            }
            let backup = backup_name(entry.path.as_str());
            match self.fs.rename(entry.path.as_str(), backup.as_str()) {
                Ok(()) => {},
                Err(e) => return Err(io_failed(context2("back up env file: ", entry.path.as_str()), e)),
            }
            swept = swept + 1;
        }
        let mut k: usize = 0;
        while k < 6
            invariant
                k <= 6,
            decreases 6 - k,
        {
            let env = DEFAULT_ENVS[k];
            let name = context2(env, ".env");
            let path = crate::pathstr::join_str(envs_dir, name.as_str());
            match self.fs.write(path.as_str(), default_env_content(env).as_str()) {
                Ok(()) => {},
                Err(e) => return Err(io_failed(context2("create env file: ", path.as_str()), e)),
            }
            k = k + 1;
        }
        Ok((swept, 6))
    }

    /// The env files under `dir` with a directive naming more than one
    /// parent, one entry per such directive, sorted by file path.
    pub fn multi_parent_files(&self, dir: &str) -> (r: Result<Vec<MultiParentFile>, ApplicationError>)
        ensures
            r matches Ok(v) ==> sorted_by_file(v@) && forall|i: int| 0 <= i < v.len() ==> (#[trigger] v@[i]).parents.len() > 1,
    {
        let entries = walk_dir(dir, usize::MAX);
        let mut offenders: Vec<MultiParentFile> = Vec::new();
        let mut i: usize = 0;
        while i < entries.len()
            invariant
                i <= entries.len(),
                sorted_by_file(offenders@),
                forall|j: int| 0 <= j < offenders.len() ==> (#[trigger] offenders@[j]).parents.len() > 1,
            decreases entries.len() - i,
        {
            let entry = &entries[i];
            i = i + 1;
            if !entry.is_file {
                continue;
            }
            let is_env = match extension_vec(&chars_of(entry.path.as_str())) {
                Some(e) => crate::text::eq_str(&e, "env"),
                None => false,
            };
            if !is_env {
                continue;
            }
            let content = match self.fs.read_to_string(entry.path.as_str()) {
                Ok(c) => c,
                Err(_) => continue,
            };
            let ls = split_lines(&chars_of(content.as_str()));
            let mut l: usize = 0;
            while l < ls.len()
                invariant
                    l <= ls.len(),
                    sorted_by_file(offenders@),
                    forall|j: int| 0 <= j < offenders.len() ==> (#[trigger] offenders@[j]).parents.len() > 1,
                decreases ls.len() - l,
            {
                let words = directive_words_exec(&ls[l]);
                if words.len() > 1 {
                    let mut parents: Vec<String> = Vec::new();
                    let mut w: usize = 0;
                    while w < words.len()
                        invariant
                            w <= words.len(),
                            parents.len() == w,
                        decreases words.len() - w,
                    {
                        parents.push(string_of(&words[w]));
                        w = w + 1;
                    }
                    let ghost before = offenders@;
                    insert_by_file(&mut offenders, MultiParentFile { file: entry.path.clone(), parents });
                    proof {
                        assert forall|j: int| 0 <= j < offenders.len() implies (#[trigger] offenders@[j]).parents.len() > 1 by {
                            let e = offenders@[j];
                            if before.contains(e) {
                                let q = choose|q: int| 0 <= q < before.len() && before[q] == e;
                                assert(before[q].parents.len() > 1);
                            }
                        }
                    }
                }
                l = l + 1;
            }
        }
        Ok(offenders)
    }

    /// The env files under `dir` form a DAG rather than trees: some
    /// directive names more than one parent.
    pub fn is_dag(&self, dir: &str) -> (r: Result<bool, ApplicationError>) {
        match self.multi_parent_files(dir) {
            Ok(v) => Ok(v.len() > 0),
            Err(e) => Err(e),
        }
    }

    /// All files in the hierarchy starting from `leaf`, leaf first.
    pub fn get_files(&self, leaf: &str) -> (r: Result<Vec<String>, ApplicationError>)
        ensures
            r matches Ok(paths) ==> paths.len() >= 1 && paths@[0]@ == leaf@,
    {
        let output = match self.build(leaf) {
            Ok(o) => o,
            Err(e) => return Err(e),
        };
        let mut paths: Vec<String> = Vec::new();
        let mut i: usize = 0;
        while i < output.files.len()
            invariant
                i <= output.files.len(),
                paths.len() == i,
                output.files@.len() >= 1,
                output.files@[0].path@ == leaf@,
                i > 0 ==> paths@[0]@ == leaf@,
            decreases output.files.len() - i,
        {
            paths.push(output.files[i].path.clone());
            i = i + 1;
        }
        Ok(paths)
    }

    /// The parent reference written into a child: the path of `parent`
    /// relative to the child's directory, falling back to the parent's
    /// file name (or the parent path itself).
    pub fn build_parent_reference(&self, parent: &str, child: &str) -> (r: String)
        ensures
            crate::pathstr::parent(child@) is None ==> r@ == reference_fallback(parent@),
            exists|pa: Option<Seq<char>>, cd: Option<Seq<char>>| r@ == #[trigger] spec_parent_reference(parent@, child@, pa, cd),
    {
        let cv = chars_of(child);
        let (parent_abs, child_dir_abs) = match parent_vec(&cv) {
            None => (None, None),
            Some(d) => {
                let child_dir = string_of(&d);
                match self.fs.canonicalize(parent) {
                    Err(_) => (None, None),
                    Ok(p) => {
                        let c = match self.fs.canonicalize(child_dir.as_str()) {
                            Ok(c) => Some(c),
                            Err(_) => None,
                        };
                        (Some(p), c)
                    },
                }
            },
        };
        let r = parent_reference_from(parent, child, &parent_abs, &child_dir_abs);
        assert(r@ == spec_parent_reference(parent@, child@, opt_text(parent_abs), opt_text(child_dir_abs)));
        r
    }

    /// Link a parent env file to a child: the child's single `# rsenv:`
    /// directive is REPLACED (or one added at the top) with a reference to
    /// the parent relative to the child. Error when the child has several
    /// directives.
    pub fn link(&self, parent: &str, child: &str) -> (r: Result<(), ApplicationError>)
        ensures
            r matches Err(e) ==> e is OperationFailed,
    {
        let content = match self.fs.read_to_string(child) {
            Ok(c) => c,
            Err(e) => return Err(io_failed(context2("read child file ", child), e)),
        };
        let parent_ref = self.build_parent_reference(parent, child);
        let new_content = match linked_content(content.as_str(), parent_ref.as_str()) {
            Ok(c) => c,
            Err(_) => return Err(detected(context2("multiple rsenv directives (expected at most 1) in ", child), IoKind::InvalidData, "multiple rsenv directives not supported")),
        };
        match self.fs.write(child, new_content.as_str()) {
            Ok(()) => Ok(()),
            Err(e) => Err(io_failed(context2("write child file ", child), e)),
        }
    }

    /// Remove the parent link of an env file: the `# rsenv:` line is kept
    /// but emptied. Nothing is written when the file has no directive; error
    /// when it has several.
    pub fn unlink(&self, file: &str) -> (r: Result<(), ApplicationError>)
        ensures
            r matches Err(e) ==> e is OperationFailed,
    {
        let content = match self.fs.read_to_string(file) {
            Ok(c) => c,
            Err(e) => return Err(io_failed(context2("read file ", file), e)),
        };
        let new_content = match unlinked_content(content.as_str()) {
            Ok(Some(c)) => c,
            Ok(None) => return Ok(()),
            Err(_) => return Err(detected(context2("multiple rsenv directives (expected at most 1) in ", file), IoKind::InvalidData, "multiple rsenv directives not supported")),
        };
        match self.fs.write(file, new_content.as_str()) {
            Ok(()) => Ok(()),
            Err(e) => Err(io_failed(context2("write file ", file), e)),
        }
    }

    /// Link files in a chain: `files[0] <- files[1] <- …`; the first file
    /// becomes a root (unlinked), each later file links to the one before.
    pub fn link_chain(&self, files: &[String]) -> (r: Result<(), ApplicationError>)
        ensures
            files.len() == 0 ==> r is Ok,
            r matches Err(e) ==> e is OperationFailed,
    {
        let mut i: usize = 0;
        while i < files.len()
            invariant
                i <= files.len(),
            decreases files.len() - i,
        {
            let res = if i == 0 {
                self.unlink(files[i].as_str())
            } else {
                self.link(files[i - 1].as_str(), files[i].as_str())
            };
            match res {
                Ok(()) => {},
                Err(e) => return Err(e),
            }
            i = i + 1;
        }
        Ok(())
    }
}

/// The leaf files of a tree, left to right.
pub open spec fn tree_leaves(t: crate::domain::arena::TreeArena) -> Seq<Seq<char>> {
    match t.root_slot() {
        Some(root) => crate::domain::arena::leaves(t.nodes(), root as int),
        None => seq![],
    }
}

/// The branch starts at a leaf of one of the trees.
pub open spec fn starts_at_leaf(trees: Seq<crate::domain::arena::TreeArena>, branch: Seq<String>) -> bool {
    exists|t: int| 0 <= t < trees.len() && (#[trigger] tree_leaves(trees[t])).contains(branch[0]@)
}

/// The branches of the trees: for each leaf (tree by tree, left to right),
/// its files from the leaf up to the root; leaves whose hierarchy cannot be
/// built are passed over.
pub fn create_branches<F: FileSystem>(service: &EnvironmentService<F>, trees: &Vec<crate::domain::arena::TreeArena>) -> (r: Vec<Vec<String>>)
    requires
        forall|i: int| 0 <= i < trees.len() ==> (#[trigger] trees@[i]).wf(),
    ensures
        forall|b: int| 0 <= b < r.len() ==> (#[trigger] r@[b]).len() >= 1,
        forall|b: int| 0 <= b < r.len() ==> starts_at_leaf(trees@, #[trigger] r@[b]@),
{
    let mut branches: Vec<Vec<String>> = Vec::new();
    let mut t: usize = 0;
    while t < trees.len()
        invariant
            t <= trees.len(),
            forall|i: int| 0 <= i < trees.len() ==> (#[trigger] trees@[i]).wf(),
            forall|b: int| 0 <= b < branches.len() ==> (#[trigger] branches@[b]).len() >= 1,
            forall|b: int| 0 <= b < branches.len() ==> starts_at_leaf(trees@, #[trigger] branches@[b]@),
        decreases trees.len() - t,
    {
        let leaves = trees[t].leaf_nodes();
        let mut l: usize = 0;
        while l < leaves.len()
            invariant
                l <= leaves.len(),
                t < trees.len(),
                crate::config::strs(leaves@) == tree_leaves(trees@[t as int]),
                forall|b: int| 0 <= b < branches.len() ==> (#[trigger] branches@[b]).len() >= 1,
                forall|b: int| 0 <= b < branches.len() ==> starts_at_leaf(trees@, #[trigger] branches@[b]@),
            decreases leaves.len() - l,
        {
            if let Ok(files) = service.get_files(leaves[l].as_str()) {
                proof {
                    assert(crate::config::strs(leaves@)[l as int] == files@[0]@);
                    assert(tree_leaves(trees@[t as int]).contains(files@[0]@));
                    assert(starts_at_leaf(trees@, files@));
                }
                branches.push(files);
            }
            l = l + 1;
        }
        t = t + 1;
    }
    branches
}

} // verus!
