//! The rsenv section of `.envrc` files (direnv integration).
//!
//! A section runs from the start delimiter line to the end delimiter line;
//! its vars part follows the vars delimiter. The functions on text say
//! exactly what each edit produces; the functions taking a `FileSystem`
//! read a file, apply the edit and write the result back.
use vstd::prelude::*;

use crate::application::error::{detected, io_failed, ApplicationError, IoKind};
use crate::infrastructure::traits::FileSystem;
use crate::text::{
    chars_of, concat, contains, find_vec, first_starting, first_starting_exec, join, join_newline,
    lines, occurs_at, push_all, push_str, rfind_from, rfind_from_exec, rfind_in, slice, split_lines,
    starts_with, starts_with_vec, string_of, strip_cr, trim, trim_start, trim_vec, views,
};

verus! {

pub const START_SECTION_DELIMITER: &'static str =
    "#------------------------------- rsenv start --------------------------------";

pub const VARS_SECTION_DELIMITER: &'static str =
    "#-------------------------------- rsenv vars --------------------------------";

pub const END_SECTION_DELIMITER: &'static str =
    "#-------------------------------- rsenv end ---------------------------------";

pub const RSENV_SWAPPED_MARKER: &'static str = "export RSENV_SWAPPED=1";

/// `data` ending with a newline.
pub open spec fn with_newline(data: Seq<char>) -> Seq<char> {
    if data.len() > 0 && data.last() == '\n' {
        data
    } else {
        data + seq!['\n']
    }
}

/// The rsenv section holding `data`, with a blank line before it.
pub open spec fn section(data: Seq<char>) -> Seq<char> {
    seq!['\n'] + START_SECTION_DELIMITER@ + seq!['\n'] + with_newline(data)
        + END_SECTION_DELIMITER@ + seq!['\n']
}

/// `content` with its rsenv section replaced by one holding `data`, or with
/// such a section appended when it has none (no start line before an end line).
pub open spec fn envrc_with_section(content: Seq<char>, data: Seq<char>) -> Seq<char> {
    let ls = lines(content);
    match (first_starting(ls, START_SECTION_DELIMITER@), first_starting(ls, END_SECTION_DELIMITER@)) {
        (Some(s), Some(e)) => if s < e {
            join(ls.take(s), seq!['\n']) + section(data) + if e + 1 < ls.len() {
                join(ls.skip(e + 1), seq!['\n'])
            } else {
                seq![]
            }
        } else {
            content + section(data)
        },
        _ => content + section(data),
    }
}

fn newline() -> (r: Vec<char>)
    ensures
        r@ == seq!['\n'],
{
    let r = vec!['\n'];
    assert(r@ =~= seq!['\n']);
    r
}

fn lines_range(ls: &Vec<Vec<char>>, a: usize, b: usize) -> (r: Vec<Vec<char>>)
    requires
        a <= b <= ls.len(),
    ensures
        views(r@) == views(ls@).subrange(a as int, b as int),
{
    let mut r: Vec<Vec<char>> = Vec::new();
    let mut i = a;
    while i < b
        invariant
            a <= i <= b <= ls.len(),
            views(r@) =~= views(ls@).subrange(a as int, i as int),
        decreases b - i,
    {
        let c = crate::text::copy_vec(&ls[i]);
        let ghost old_r = views(r@);
        r.push(c);
        assert(views(r@) =~= old_r.push(ls@[i as int]@));
        assert(views(ls@).subrange(a as int, i + 1) =~= views(ls@).subrange(a as int, i as int).push(ls@[i as int]@));
        i = i + 1;
    }
    r
}

/// The section text for `data`.
fn section_exec(data: &Vec<char>) -> (r: Vec<char>)
    ensures
        r@ == section(data@),
{
    let mut r = newline();
    push_str(&mut r, START_SECTION_DELIMITER);
    r.push('\n');
    push_all(&mut r, data);
    if !(data.len() > 0 && data[data.len() - 1] == '\n') {
        r.push('\n');
    }
    push_str(&mut r, END_SECTION_DELIMITER);
    r.push('\n');
    assert(r@ =~= section(data@));
    r
}

/// The content of an `.envrc` after putting `data` into its rsenv section.
pub fn dot_envrc_content(content: &str, data: &str) -> (r: String)
    ensures
        r@ == envrc_with_section(content@, data@),
{
    let cv = chars_of(content);
    let dv = chars_of(data);
    let ls = split_lines(&cv);
    let sec = section_exec(&dv);
    let start = chars_of(START_SECTION_DELIMITER);
    let end = chars_of(END_SECTION_DELIMITER);
    let si = first_starting_exec(&ls, &start);
    let ei = first_starting_exec(&ls, &end);
    match (si, ei) {
        (Some(s), Some(e)) => {
            if s < e {
                let pre = lines_range(&ls, 0, s);
                assert(views(ls@).subrange(0, s as int) =~= views(ls@).take(s as int));
                let mut r = join_newline(&pre);
                push_all(&mut r, &sec);
                if e + 1 < ls.len() {
                    let post = lines_range(&ls, e + 1, ls.len());
                    assert(views(ls@).subrange(e + 1, ls.len() as int) =~= views(ls@).skip(e + 1));
                    let pj = join_newline(&post);
                    push_all(&mut r, &pj);
                } else {
                    assert(r@ =~= r@ + Seq::<char>::empty());
                }
                return string_of(&r);
            }
        },
        _ => {},
    }
    string_of(&concat(&cv, &sec))
}

/// Update the `.envrc` file at `target_file_path` with an rsenv section
/// holding `data`: an existing section is replaced, else one is appended.
/// A missing file is created first.
pub fn update_dot_envrc<F: FileSystem>(fs: &F, target_file_path: &str, data: &str) -> (r: Result<(), ApplicationError>)
    ensures
        r matches Err(e) ==> e is OperationFailed,
{
    if !fs.path_exists(target_file_path) {
        match fs.write(target_file_path, "") {
            Ok(()) => {},
            Err(e) => return Err(io_failed(context2("create .envrc at ", target_file_path), e)),
        }
    }
    let content = match fs.read_to_string(target_file_path) {
        Ok(c) => c,
        Err(e) => return Err(io_failed(context2("read .envrc at ", target_file_path), e)),
    };
    let new_content = dot_envrc_content(content.as_str(), data);
    match fs.write(target_file_path, new_content.as_str()) {
        Ok(()) => Ok(()),
        Err(e) => Err(io_failed(context2("write .envrc at ", target_file_path), e)),
    }
}

/// `a` followed by `b`.
pub fn context2(a: &str, b: &str) -> (r: String)
    ensures
        r@ == a@ + b@,
{
    let mut v = chars_of(a);
    push_str(&mut v, b);
    string_of(&v)
}

// ------------------------------------------------------------------
// The vars part
// ------------------------------------------------------------------

/// Vars text ending with a newline (empty stays empty).
pub open spec fn vars_normalized(vars: Seq<char>) -> Seq<char> {
    if vars.len() == 0 {
        seq![]
    } else {
        with_newline(vars)
    }
}

/// The lines before the section, each followed by a newline.
pub open spec fn pre_section(ls: Seq<Seq<char>>, s: int) -> Seq<char> {
    if s > 0 {
        join(ls.take(s), seq!['\n']) + seq!['\n']
    } else {
        seq![]
    }
}

/// The lines after the end line, ending with a newline.
pub open spec fn post_section(ls: Seq<Seq<char>>, e: int) -> Seq<char> {
    if e + 1 < ls.len() {
        let p = join(ls.skip(e + 1), seq!['\n']);
        if p.len() == 0 || p.last() == '\n' {
            p
        } else {
            p + seq!['\n']
        }
    } else {
        seq![]
    }
}

/// `content` with the vars part of its rsenv section replaced by `vars`,
/// and whether a vars delimiter had to be inserted (legacy section); `None`
/// when there is no section.
pub open spec fn with_vars(content: Seq<char>, vars: Seq<char>) -> Option<(Seq<char>, bool)> {
    let ls = lines(content);
    match (first_starting(ls, START_SECTION_DELIMITER@), first_starting(ls, END_SECTION_DELIMITER@)) {
        (Some(s), Some(e)) => if s < e {
            let tail = vars_normalized(vars) + END_SECTION_DELIMITER@ + seq!['\n'] + post_section(ls, e);
            match first_starting(ls, VARS_SECTION_DELIMITER@) {
                Some(v) => if s < v && v < e {
                    Some((pre_section(ls, s) + join(ls.subrange(s, v + 1), seq!['\n']) + seq!['\n'] + tail, false))
                } else {
                    Some((pre_section(ls, s) + join(ls.subrange(s, e), seq!['\n']) + seq!['\n']
                        + VARS_SECTION_DELIMITER@ + seq!['\n'] + tail, true))
                },
                None => Some((pre_section(ls, s) + join(ls.subrange(s, e), seq!['\n']) + seq!['\n']
                    + VARS_SECTION_DELIMITER@ + seq!['\n'] + tail, true)),
            }
        } else {
            None
        },
        _ => None,
    }
}

/// The content after replacing the vars part; `None` without a section.
/// The flag tells whether a legacy section (no vars delimiter) was migrated.
pub fn vars_section_content(content: &str, vars_data: &str) -> (r: Option<(String, bool)>)
    ensures
        match r {
            Some((t, m)) => with_vars(content@, vars_data@) == Some((t@, m)),
            None => with_vars(content@, vars_data@) is None,
        },
{
    let cv = chars_of(content);
    let vd = chars_of(vars_data);
    let ls = split_lines(&cv);
    let start = chars_of(START_SECTION_DELIMITER);
    let end = chars_of(END_SECTION_DELIMITER);
    let varsd = chars_of(VARS_SECTION_DELIMITER);
    let (s, e) = match (first_starting_exec(&ls, &start), first_starting_exec(&ls, &end)) {
        (Some(s), Some(e)) => {
            if s < e {
                (s, e)
            } else {
                return None;
            }
        },
        _ => return None,
    };
    let ghost gls = views(ls@);
    // pre-section
    let mut pre: Vec<char> = Vec::new();
    if s > 0 {
        let p = lines_range(&ls, 0, s);
        assert(gls.subrange(0, s as int) =~= gls.take(s as int));
        pre = join_newline(&p);
        pre.push('\n');
    }
    assert(pre@ == pre_section(gls, s as int));
    // tail
    let mut tail: Vec<char> = Vec::new();
    if vd.len() > 0 {
        push_all(&mut tail, &vd);
        if vd[vd.len() - 1] != '\n' {
            tail.push('\n');
        }
    }
    assert(tail@ =~= vars_normalized(vd@));
    push_all(&mut tail, &end);
    tail.push('\n');
    let ghost tail0 = tail@;
    if e + 1 < ls.len() {
        let post = lines_range(&ls, e + 1, ls.len());
        assert(gls.subrange(e + 1, ls.len() as int) =~= gls.skip(e + 1));
        let mut p = join_newline(&post);
        if !(p.len() == 0 || p[p.len() - 1] == '\n') {
            p.push('\n');
        }
        push_all(&mut tail, &p);
    }
    assert(tail@ =~= vars_normalized(vd@) + END_SECTION_DELIMITER@ + seq!['\n'] + post_section(gls, e as int));
    let vi = first_starting_exec(&ls, &varsd);
    let keep = match vi {
        Some(v) => s < v && v < e,
        None => false,
    };
    let mut r = pre;
    if keep {
        let v = vi.unwrap();
        let head = lines_range(&ls, s, v + 1);
        let hj = join_newline(&head);
        push_all(&mut r, &hj);
        r.push('\n');
        push_all(&mut r, &tail);
        assert(r@ =~= pre_section(gls, s as int) + join(gls.subrange(s as int, v + 1), seq!['\n']) + seq!['\n'] + tail@);
        Some((string_of(&r), false))
    } else {
        let head = lines_range(&ls, s, e);
        let hj = join_newline(&head);
        push_all(&mut r, &hj);
        r.push('\n');
        push_all(&mut r, &varsd);
        r.push('\n');
        push_all(&mut r, &tail);
        assert(r@ =~= pre_section(gls, s as int) + join(gls.subrange(s as int, e as int), seq!['\n']) + seq!['\n']
            + VARS_SECTION_DELIMITER@ + seq!['\n'] + tail@);
        Some((string_of(&r), true))
    }
}

/// Update only the vars part of an existing rsenv section: the header
/// (start delimiter up to the vars delimiter) is kept, the vars are
/// replaced. A legacy section (no vars delimiter) gets one inserted; the
/// result tells whether that happened. Error when there is no section.
pub fn update_vars_section<F: FileSystem>(fs: &F, target_file_path: &str, vars_data: &str) -> (r: Result<bool, ApplicationError>)
    ensures
        r matches Err(e) ==> e is OperationFailed,
{
    let content = match fs.read_to_string(target_file_path) {
        Ok(c) => c,
        Err(e) => return Err(io_failed(context2("read .envrc at ", target_file_path), e)),
    };
    let (new_content, migrated) = match vars_section_content(content.as_str(), vars_data) {
        Some(x) => x,
        None => {
            let ctx = context2("no rsenv section found. Run 'rsenv init' first: ", target_file_path);
            return Err(detected(ctx, IoKind::NotFound, "rsenv section not found"));
        },
    };
    match fs.write(target_file_path, new_content.as_str()) {
        Ok(()) => Ok(migrated),
        Err(e) => Err(io_failed(context2("write .envrc at ", target_file_path), e)),
    }
}

// ------------------------------------------------------------------
// The swapped marker
// ------------------------------------------------------------------

/// Some line of `content` is the marker (after trimming).
pub open spec fn has_marker(content: Seq<char>) -> bool {
    exists|i: int| 0 <= i < lines(content).len() && trim(#[trigger] lines(content)[i]) == RSENV_SWAPPED_MARKER@
}

/// `content` with the swapped marker line appended, unless a line already is it.
pub open spec fn with_marker(content: Seq<char>) -> Seq<char> {
    if has_marker(content) {
        content
    } else if content.len() == 0 || content.last() == '\n' {
        content + RSENV_SWAPPED_MARKER@ + seq!['\n']
    } else {
        content + seq!['\n'] + RSENV_SWAPPED_MARKER@ + seq!['\n']
    }
}

/// The lines of `content` that are not the marker (after trimming),
/// joined and newline-terminated (empty when none are left).
pub open spec fn without_marker(content: Seq<char>) -> Seq<char> {
    let kept = lines(content).filter(|l: Seq<char>| trim(l) != RSENV_SWAPPED_MARKER@);
    if kept.len() == 0 {
        seq![]
    } else {
        join(kept, seq!['\n']) + seq!['\n']
    }
}

/// The swapped marker line reads as itself when trimmed and holds no
/// newline.
proof fn lemma_marker_line()
    ensures
        trim(RSENV_SWAPPED_MARKER@) == RSENV_SWAPPED_MARKER@,
        strip_cr(RSENV_SWAPPED_MARKER@) == RSENV_SWAPPED_MARKER@,
        crate::text::no_newline(RSENV_SWAPPED_MARKER@),
{
    reveal_strlit("export RSENV_SWAPPED=1");
    let m = RSENV_SWAPPED_MARKER@;
    assert(!crate::text::is_ws(m[0]));
    assert(trim_start(m) == m);
    assert(!crate::text::is_ws(m.last()));
    assert(crate::text::trim_end(m) == m);
}

/// Marking a file leaves it marked, and marking it again changes nothing.
pub proof fn lemma_marker_added_marks(content: Seq<char>)
    ensures
        has_marker(with_marker(content)),
        with_marker(with_marker(content)) == with_marker(content),
{
    lemma_marker_line();
    let m = RSENV_SWAPPED_MARKER@;
    if !has_marker(content) {
        let a = if content.len() == 0 || content.last() == '\n' {
            content
        } else {
            content + seq!['\n']
        };
        assert(with_marker(content) =~= a + m + seq!['\n']);
        crate::text::lemma_lines_append_line(a, m);
        let ls = lines(with_marker(content));
        assert(ls == lines(a).push(m));
        assert(trim(ls[lines(a).len() as int]) == m);
    }
}

/// A file with its marker lines removed is unmarked.
pub proof fn lemma_marker_removed_unmarks(content: Seq<char>)
    ensures
        !has_marker(without_marker(content)),
{
    let pred = |l: Seq<char>| trim(l) != RSENV_SWAPPED_MARKER@;
    let kept = lines(content).filter(pred);
    if kept.len() > 0 {
        crate::text::lemma_lines_no_newline(content);
        assert forall|k: int| 0 <= k < kept.len() implies crate::text::no_newline(#[trigger] kept[k]) by {
            lines(content).lemma_filter_contains_rev(pred, kept[k]);
            assert(kept.contains(kept[k]));
            let q = choose|q: int| 0 <= q < lines(content).len() && lines(content)[q] == kept[k];
            assert(crate::text::no_newline(lines(content)[q]));
        }
        crate::text::lemma_join_newline_concat(kept);
        crate::text::lemma_lines_of_concat(kept);
        let out = lines(without_marker(content));
        assert forall|i: int| 0 <= i < out.len() implies trim(#[trigger] out[i]) != RSENV_SWAPPED_MARKER@ by {
            assert(out[i] == strip_cr(kept[i]));
            crate::text::lemma_trim_strip_cr(kept[i]);
            lines(content).lemma_filter_pred(pred, i);
        }
    } else {
        assert(lines(Seq::<char>::empty()) == Seq::<Seq<char>>::empty());
    }
}

/// Removing the marker undoes adding it, for content whose last char is no
/// carriage return.
pub proof fn lemma_marker_removed_undoes_added(content: Seq<char>)
    requires
        content.len() == 0 || content.last() != '\r',
    ensures
        without_marker(with_marker(content)) == without_marker(content),
{
    lemma_marker_line();
    let m = RSENV_SWAPPED_MARKER@;
    let pred = |l: Seq<char>| trim(l) != RSENV_SWAPPED_MARKER@;
    if !has_marker(content) {
        let a = if content.len() == 0 || content.last() == '\n' {
            content
        } else {
            content + seq!['\n']
        };
        assert(with_marker(content) =~= a + m + seq!['\n']);
        crate::text::lemma_lines_append_line(a, m);
        if !(content.len() == 0 || content.last() == '\n') {
            crate::text::lemma_lines_terminate(content);
        }
        assert(lines(with_marker(content)) == lines(content).push(m));
        reveal(Seq::filter);
        assert(lines(content).push(m).drop_last() =~= lines(content));
        assert(lines(content).push(m).filter(pred) == lines(content).filter(pred));
    }
}

/// Filtering keeps a sequence whole when every element passes.
proof fn lemma_filter_keeps_all(s: Seq<Seq<char>>, pred: spec_fn(Seq<char>) -> bool)
    requires
        forall|k: int| 0 <= k < s.len() ==> pred(#[trigger] s[k]),
    ensures
        s.filter(pred) == s,
    decreases s.len(),
{
    reveal_with_fuel(Seq::filter, 1);
    if s.len() > 0 {
        lemma_filter_keeps_all(s.drop_last(), pred);
        assert(pred(s[s.len() - 1]));
        assert(s.drop_last().push(s.last()) =~= s);
    }
}

/// Removing the swapped marker restores a file that had none exactly as it
/// was: marking and unmarking a file of whole lines (each without a
/// carriage return at its end) and without a marker line gives it back.
pub proof fn lemma_unmark_restores(ks: Seq<Seq<char>>)
    requires
        forall|k: int| 0 <= k < ks.len() ==> crate::text::no_newline(#[trigger] ks[k]),
        forall|k: int| 0 <= k < ks.len() ==> (#[trigger] ks[k]).len() == 0 || ks[k].last() != '\r',
        forall|k: int| 0 <= k < ks.len() ==> trim(#[trigger] ks[k]) != RSENV_SWAPPED_MARKER@,
    ensures
        without_marker(with_marker(crate::text::concat_lines(ks))) == crate::text::concat_lines(ks),
{
    let c = crate::text::concat_lines(ks);
    let pred = |l: Seq<char>| trim(l) != RSENV_SWAPPED_MARKER@;
    if ks.len() > 0 {
        assert(c.last() == '\n');
    }
    lemma_marker_removed_undoes_added(c);
    crate::text::lemma_lines_of_concat(ks);
    assert(ks.map_values(|l: Seq<char>| strip_cr(l)) =~= ks);
    assert(lines(c) == ks);
    lemma_filter_keeps_all(ks, pred);
    if ks.len() > 0 {
        crate::text::lemma_join_newline_concat(ks);
    } else {
        assert(c =~= Seq::<char>::empty());
    }
}

fn has_marker_exec(ls: &Vec<Vec<char>>, m: &Vec<char>) -> (b: bool)
    requires
        m@ == RSENV_SWAPPED_MARKER@,
    ensures
        b == exists|i: int| 0 <= i < ls.len() && trim(#[trigger] views(ls@)[i]) == RSENV_SWAPPED_MARKER@,
{
    let mut i: usize = 0;
    while i < ls.len()
        invariant
            i <= ls.len(),
            m@ == RSENV_SWAPPED_MARKER@,
            forall|j: int| 0 <= j < i ==> trim(#[trigger] views(ls@)[j]) != RSENV_SWAPPED_MARKER@,
        decreases ls.len() - i,
    {
        let t = trim_vec(&ls[i]);
        assert(views(ls@)[i as int] == ls@[i as int]@);
        if crate::text::eq_vec(&t, m) {
            return true;
        }
        i = i + 1;
    }
    false
}

/// The content of `dot.envrc` after adding the swapped marker.
pub fn marker_added(content: &str) -> (r: String)
    ensures
        r@ == with_marker(content@),
{
    let cv = chars_of(content);
    let ls = split_lines(&cv);
    let m = chars_of(RSENV_SWAPPED_MARKER);
    if has_marker_exec(&ls, &m) {
        return string_of(&cv);
    }
    let mut r = cv.clone();
    if !(cv.len() == 0 || cv[cv.len() - 1] == '\n') {
        r.push('\n');
    }
    push_all(&mut r, &m);
    r.push('\n');
    assert(r@ =~= with_marker(content@));
    string_of(&r)
}

/// The content of `dot.envrc` after removing every swapped-marker line.
pub fn marker_removed(content: &str) -> (r: String)
    ensures
        r@ == without_marker(content@),
{
    let cv = chars_of(content);
    let ls = split_lines(&cv);
    let m = chars_of(RSENV_SWAPPED_MARKER);
    let ghost pred = |l: Seq<char>| trim(l) != RSENV_SWAPPED_MARKER@;
    let mut kept: Vec<Vec<char>> = Vec::new();
    let mut i: usize = 0;
    assert(views(ls@).take(0).filter(pred) =~= Seq::<Seq<char>>::empty());
    while i < ls.len()
        invariant
            i <= ls.len(),
            m@ == RSENV_SWAPPED_MARKER@,
            pred == (|l: Seq<char>| trim(l) != RSENV_SWAPPED_MARKER@),
            views(kept@) == views(ls@).take(i as int).filter(pred),
        decreases ls.len() - i,
    {
        let t = trim_vec(&ls[i]);
        let ghost li = views(ls@)[i as int];
        assert(li == ls@[i as int]@);
        assert(views(ls@).take(i + 1) =~= views(ls@).take(i as int).push(li));
        proof {
            reveal_with_fuel(Seq::filter, 1);
            assert(views(ls@).take(i as int).push(li).drop_last() =~= views(ls@).take(i as int));
        }
        if !crate::text::eq_vec(&t, &m) {
            let ghost old_k = views(kept@);
            let c = crate::text::copy_vec(&ls[i]);
            kept.push(c);
            assert(views(kept@) =~= old_k.push(li));
        }
        i = i + 1;
    }
    assert(views(ls@).take(i as int) =~= views(ls@));
    if kept.len() == 0 {
        let r: Vec<char> = Vec::new();
        assert(r@ =~= without_marker(content@));
        string_of(&r)
    } else {
        let mut r = join_newline(&kept);
        r.push('\n');
        string_of(&r)
    }
}

/// Add the swapped marker to `dot.envrc` if not present; a missing file is
/// created holding just the marker.
pub fn add_swapped_marker<F: FileSystem>(fs: &F, dot_envrc_path: &str) -> (r: Result<(), ApplicationError>)
    ensures
        r matches Err(e) ==> e is OperationFailed,
{
    if !fs.path_exists(dot_envrc_path) {
        let first = marker_added("");
        return match fs.write(dot_envrc_path, first.as_str()) {
            Ok(()) => Ok(()),
            Err(e) => Err(io_failed(context2("create dot.envrc at ", dot_envrc_path), e)),
        };
    }
    let content = match fs.read_to_string(dot_envrc_path) {
        Ok(c) => c,
        Err(e) => return Err(io_failed(context2("read dot.envrc at ", dot_envrc_path), e)),
    };
    let new_content = marker_added(content.as_str());
    if new_content.as_str().len() == content.as_str().len() {
        // marker already present: nothing to write
        return Ok(());
    }
    match fs.write(dot_envrc_path, new_content.as_str()) {
        Ok(()) => Ok(()),
        Err(e) => Err(io_failed(context2("write dot.envrc at ", dot_envrc_path), e)),
    }
}

/// Remove the swapped marker from `dot.envrc` if present.
pub fn remove_swapped_marker<F: FileSystem>(fs: &F, dot_envrc_path: &str) -> (r: Result<(), ApplicationError>)
    ensures
        r matches Err(e) ==> e is OperationFailed,
{
    if !fs.path_exists(dot_envrc_path) {
        return Ok(());
    }
    let content = match fs.read_to_string(dot_envrc_path) {
        Ok(c) => c,
        Err(e) => return Err(io_failed(context2("read dot.envrc at ", dot_envrc_path), e)),
    };
    let new_content = marker_removed(content.as_str());
    match fs.write(dot_envrc_path, new_content.as_str()) {
        Ok(()) => Ok(()),
        Err(e) => Err(io_failed(context2("write dot.envrc at ", dot_envrc_path), e)),
    }
}

// ------------------------------------------------------------------
// Metadata of the section
// ------------------------------------------------------------------

pub const RELATIVE_PREFIX: &'static str = "# config.relative = ";

pub const SENTINEL_PREFIX: &'static str = "# state.sentinel = '";

pub const SOURCE_DIR_PREFIX: &'static str = "# state.sourceDir = '";

/// Metadata extracted from the rsenv section in dot.envrc.
#[derive(Debug)]
pub struct RsenvMetadata {
    pub relative: bool,
    pub sentinel: String,
    pub source_dir: String,
}

/// The value of a quoted metadata line: the text after `prefix` up to a
/// closing `'` at the end of the line.
pub open spec fn quoted_value(t: Seq<char>, prefix: Seq<char>) -> Option<Seq<char>> {
    let rest = t.skip(prefix.len() as int);
    if rest.len() > 0 && rest.last() == '\'' {
        Some(rest.drop_last())
    } else {
        None
    }
}

/// The metadata found so far: relative flag, sentinel, source dir.
pub type MetaState = (Option<bool>, Option<Seq<char>>, Option<Seq<char>>);

/// One line applied to the metadata found so far; `None` when a quoted
/// value lacks its closing quote (which makes the whole parse fail).
pub open spec fn meta_step(st: MetaState, line: Seq<char>) -> Option<MetaState> {
    let t = trim(line);
    if starts_with(t, RELATIVE_PREFIX@) {
        Some((Some(t.skip(RELATIVE_PREFIX@.len() as int) == "true"@), st.1, st.2))
    } else if starts_with(t, SENTINEL_PREFIX@) {
        match quoted_value(t, SENTINEL_PREFIX@) {
            Some(v) => Some((st.0, Some(v), st.2)),
            None => None,
        }
    } else if starts_with(t, SOURCE_DIR_PREFIX@) {
        match quoted_value(t, SOURCE_DIR_PREFIX@) {
            Some(v) => Some((st.0, st.1, Some(v))),
            None => None,
        }
    } else {
        Some(st)
    }
}

/// The metadata after all lines (the last line of each kind wins).
pub open spec fn meta_scan(ls: Seq<Seq<char>>) -> Option<MetaState>
    decreases ls.len(),
{
    if ls.len() == 0 {
        Some((None, None, None))
    } else {
        match meta_scan(ls.drop_last()) {
            None => None,
            Some(st) => meta_step(st, ls.last()),
        }
    }
}

/// The metadata of `content`: present when it has a start delimiter, every
/// quoted metadata line is closed, and all three values were found.
pub open spec fn metadata_of(content: Seq<char>) -> Option<(bool, Seq<char>, Seq<char>)> {
    if !contains(content, START_SECTION_DELIMITER@) {
        None
    } else {
        match meta_scan(lines(content)) {
            Some((Some(r), Some(s), Some(d))) => Some((r, s, d)),
            _ => None,
        }
    }
}

/// Once the scan fails, it stays failed.
pub proof fn lemma_meta_none_prefix(ls: Seq<Seq<char>>, k: int)
    requires
        0 <= k <= ls.len(),
        meta_scan(ls.take(k)) is None,
    ensures
        meta_scan(ls) is None,
    decreases ls.len() - k,
{
    if k < ls.len() {
        assert(ls.take(k + 1).drop_last() =~= ls.take(k));
        lemma_meta_none_prefix(ls, k + 1);
    } else {
        assert(ls.take(k) =~= ls);
    }
}

fn quoted_value_exec(t: &Vec<char>, plen: usize) -> (r: Option<Vec<char>>)
    requires
        plen <= t.len(),
    ensures
        match r {
            Some(v) => quoted_value(t@, t@.take(plen as int)) == Some(v@),
            None => quoted_value(t@, t@.take(plen as int)) is None,
        },
{
    let rest = slice(t, plen, t.len());
    assert(rest@ =~= t@.skip(plen as int));
    if rest.len() > 0 && rest[rest.len() - 1] == '\'' {
        let v = slice(&rest, 0, rest.len() - 1);
        assert(v@ =~= rest@.drop_last());
        Some(v)
    } else {
        None
    }
}

/// Parse rsenv metadata from dot.envrc content; `None` if there is no rsenv
/// section or the metadata is incomplete.
pub fn parse_rsenv_metadata(content: &str) -> (r: Option<RsenvMetadata>)
    ensures
        match r {
            Some(m) => metadata_of(content@) == Some((m.relative, m.sentinel@, m.source_dir@)),
            None => metadata_of(content@) is None,
        },
{
    let cv = chars_of(content);
    let start = chars_of(START_SECTION_DELIMITER);
    if find_vec(&cv, &start).is_none() {
        return None;
    }
    let ls = split_lines(&cv);
    let relp = chars_of(RELATIVE_PREFIX);
    let senp = chars_of(SENTINEL_PREFIX);
    let srcp = chars_of(SOURCE_DIR_PREFIX);
    let tru = chars_of("true");
    let mut relative: Option<bool> = None;
    let mut sentinel: Option<Vec<char>> = None;
    let mut source_dir: Option<Vec<char>> = None;
    let mut i: usize = 0;
    assert(views(ls@).take(0) =~= Seq::<Seq<char>>::empty());
    while i < ls.len()
        invariant
            i <= ls.len(),
            relp@ == RELATIVE_PREFIX@,
            views(ls@) == lines(content@),
            contains(content@, START_SECTION_DELIMITER@),
            senp@ == SENTINEL_PREFIX@,
            srcp@ == SOURCE_DIR_PREFIX@,
            tru@ == "true"@,
            meta_scan(views(ls@).take(i as int)) == Some(
                (
                    relative,
                    match sentinel {
                        Some(v) => Some(v@),
                        None => None,
                    },
                    match source_dir {
                        Some(v) => Some(v@),
                        None => None,
                    },
                ),
            ),
        decreases ls.len() - i,
    {
        let ghost li = views(ls@)[i as int];
        assert(li == ls@[i as int]@);
        assert(views(ls@).take(i + 1).drop_last() =~= views(ls@).take(i as int));
        let t = trim_vec(&ls[i]);
        if starts_with_vec(&t, &relp) {
            let v = slice(&t, relp.len(), t.len());
            assert(v@ =~= t@.skip(RELATIVE_PREFIX@.len() as int));
            relative = Some(crate::text::eq_vec(&v, &tru));
        } else if starts_with_vec(&t, &senp) {
            assert(t@.take(senp.len() as int) =~= SENTINEL_PREFIX@);
            match quoted_value_exec(&t, senp.len()) {
                Some(v) => sentinel = Some(v),
                None => {
                    proof {
                        lemma_meta_none_prefix(views(ls@), i + 1);
                    }
                    return None;
                },
            }
        } else if starts_with_vec(&t, &srcp) {
            assert(t@.take(srcp.len() as int) =~= SOURCE_DIR_PREFIX@);
            match quoted_value_exec(&t, srcp.len()) {
                Some(v) => source_dir = Some(v),
                None => {
                    proof {
                        lemma_meta_none_prefix(views(ls@), i + 1);
                    }
                    return None;
                },
            }
        }
        i = i + 1;
    }
    assert(views(ls@).take(i as int) =~= views(ls@));
    match (relative, sentinel, source_dir) {
        (Some(r), Some(s), Some(d)) => Some(
            RsenvMetadata { relative: r, sentinel: string_of(&s), source_dir: string_of(&d) },
        ),
        _ => None,
    }
}

// ------------------------------------------------------------------
// The source dir line and deleting the section
// ------------------------------------------------------------------

/// First position `i` where `prefix` occurs and a `'` follows somewhere
/// after it, with the position of that closing `'`.
pub open spec fn source_dir_match(c: Seq<char>) -> Option<(int, int)> {
    match crate::text::find(c, SOURCE_DIR_PREFIX@) {
        None => None,
        Some(i) => {
            let from = i + SOURCE_DIR_PREFIX@.len();
            match crate::text::find_char(c.skip(from), '\'') {
                Some(q) => Some((i, from + q)),
                None => None,
            }
        },
    }
}

/// `content` with the value of its first `# state.sourceDir = '…'` replaced.
pub open spec fn with_source_dir(c: Seq<char>, new_dir: Seq<char>) -> Seq<char> {
    match source_dir_match(c) {
        Some((i, q)) => c.take(i) + SOURCE_DIR_PREFIX@ + new_dir + seq!['\''] + c.skip(q + 1),
        None => c,
    }
}

/// The content after setting `state.sourceDir` to `new_source_dir`.
pub fn source_dir_updated(content: &str, new_source_dir: &str) -> (r: String)
    ensures
        r@ == with_source_dir(content@, new_source_dir@),
{
    let cv = chars_of(content);
    let p = chars_of(SOURCE_DIR_PREFIX);
    match find_vec(&cv, &p) {
        None => string_of(&cv),
        Some(i) => {
            proof {
                crate::text::lemma_find_from(cv@, p@, 0);
                assert(crate::text::find_from(cv@, p@, 0) == Some(i as int));
                assert(occurs_at(cv@, p@, i as int));
            }
            let n = cv.len();
            let pl = p.len();
            assert(i + pl <= n);
            let from = i + pl;
            match crate::text::find_char_from(&cv, '\'', from) {
                Some(q) => {
                    proof {
                        crate::text::lemma_find_char_is(cv@.skip(from as int), '\'', Some(q - from));
                    }
                    let mut r = slice(&cv, 0, i);
                    push_all(&mut r, &p);
                    push_str(&mut r, new_source_dir);
                    r.push('\'');
                    let tail = slice(&cv, q + 1, cv.len());
                    push_all(&mut r, &tail);
                    assert(r@ =~= with_source_dir(content@, new_source_dir@));
                    string_of(&r)
                },
                None => {
                    proof {
                        crate::text::lemma_find_char_is(cv@.skip(from as int), '\'', None);
                    }
                    string_of(&cv)
                },
            }
        },
    }
}

/// Update `state.sourceDir` in the dot.envrc file.
pub fn update_source_dir<F: FileSystem>(fs: &F, path: &str, new_source_dir: &str) -> (r: Result<(), ApplicationError>)
    ensures
        r matches Err(e) ==> e is OperationFailed,
{
    let content = match fs.read_to_string(path) {
        Ok(c) => c,
        Err(e) => return Err(io_failed(context2("read dot.envrc at ", path), e)),
    };
    let new_content = source_dir_updated(content.as_str(), new_source_dir);
    match fs.write(path, new_content.as_str()) {
        Ok(()) => Ok(()),
        Err(e) => Err(io_failed(context2("write dot.envrc at ", path), e)),
    }
}

/// The span of the rsenv section: from the first start delimiter to the end
/// of the last end delimiter after it, including one following newline.
pub open spec fn section_span(c: Seq<char>) -> Option<(int, int)> {
    match crate::text::find(c, START_SECTION_DELIMITER@) {
        None => None,
        Some(s) => match rfind_from(c, END_SECTION_DELIMITER@, s + START_SECTION_DELIMITER@.len()) {
            None => None,
            Some(e) => {
                let after = e + END_SECTION_DELIMITER@.len();
                Some((s, if after < c.len() && c[after] == '\n' { after + 1 } else { after }))
            },
        },
    }
}

/// `content` without its rsenv section.
pub open spec fn without_section(c: Seq<char>) -> Seq<char> {
    match section_span(c) {
        Some((s, e)) => c.take(s) + c.skip(e),
        None => c,
    }
}

/// The section delimiters hold no newline.
proof fn lemma_delimiters_one_line()
    ensures
        crate::text::no_newline(START_SECTION_DELIMITER@),
        crate::text::no_newline(END_SECTION_DELIMITER@),
        START_SECTION_DELIMITER@.len() > 0,
        END_SECTION_DELIMITER@.len() > 1,
        END_SECTION_DELIMITER@.last() == '-',
{
    reveal_strlit("#------------------------------- rsenv start --------------------------------");
    reveal_strlit("#-------------------------------- rsenv end ---------------------------------");
}

/// The first line at or after `i` starting with `p` is `k` when `k` starts
/// with it and none before it does.
proof fn lemma_first_starting_at(ls: Seq<Seq<char>>, p: Seq<char>, i: int, k: int)
    requires
        0 <= i <= k < ls.len(),
        starts_with(ls[k], p),
        forall|j: int| i <= j < k ==> !starts_with(#[trigger] ls[j], p),
    ensures
        crate::text::first_starting_from(ls, p, i) == Some(k),
    decreases k - i,
{
    if i < k {
        lemma_first_starting_at(ls, p, i + 1, k);
    }
}

/// The start delimiter line does not start with the end delimiter.
proof fn lemma_start_is_no_end()
    ensures
        !starts_with(START_SECTION_DELIMITER@, END_SECTION_DELIMITER@),
        starts_with(START_SECTION_DELIMITER@, START_SECTION_DELIMITER@),
        starts_with(END_SECTION_DELIMITER@, END_SECTION_DELIMITER@),
        !starts_with(Seq::<char>::empty(), START_SECTION_DELIMITER@),
        !starts_with(Seq::<char>::empty(), END_SECTION_DELIMITER@),
        START_SECTION_DELIMITER@.last() == '-',
{
    reveal_strlit("#------------------------------- rsenv start --------------------------------");
    reveal_strlit("#-------------------------------- rsenv end ---------------------------------");
    let st = START_SECTION_DELIMITER@;
    let en = END_SECTION_DELIMITER@;
    assert(st[32] != en[32]);
    if starts_with(st, en) {
        assert(st.subrange(0, en.len() as int)[32] == st[32]);
    }
    assert(st.subrange(0, st.len() as int) =~= st);
    assert(en.subrange(0, en.len() as int) =~= en);
}

/// Writing the rsenv section again with the same data changes nothing:
/// for a text of whole lines, none of which starts with a section
/// delimiter, and data of whole lines, none of which starts with the end
/// delimiter (no line ending in a carriage return).
pub proof fn lemma_section_rewrite_idempotent(ks: Seq<Seq<char>>, ds: Seq<Seq<char>>)
    requires
        forall|k: int| 0 <= k < ks.len() ==> crate::text::no_newline(#[trigger] ks[k]),
        forall|k: int| 0 <= k < ks.len() ==> (#[trigger] ks[k]).len() == 0 || ks[k].last() != '\r',
        forall|k: int| 0 <= k < ks.len() ==> !starts_with(#[trigger] ks[k], START_SECTION_DELIMITER@),
        forall|k: int| 0 <= k < ks.len() ==> !starts_with(#[trigger] ks[k], END_SECTION_DELIMITER@),
        ds.len() > 0,
        forall|k: int| 0 <= k < ds.len() ==> crate::text::no_newline(#[trigger] ds[k]),
        forall|k: int| 0 <= k < ds.len() ==> (#[trigger] ds[k]).len() == 0 || ds[k].last() != '\r',
        forall|k: int| 0 <= k < ds.len() ==> !starts_with(#[trigger] ds[k], END_SECTION_DELIMITER@),
    ensures
        envrc_with_section(envrc_with_section(crate::text::concat_lines(ks), crate::text::concat_lines(ds)), crate::text::concat_lines(ds))
            == envrc_with_section(crate::text::concat_lines(ks), crate::text::concat_lines(ds)),
{
    lemma_delimiters_one_line();
    lemma_start_is_no_end();
    let st = START_SECTION_DELIMITER@;
    let en = END_SECTION_DELIMITER@;
    let c = crate::text::concat_lines(ks);
    let d = crate::text::concat_lines(ds);
    // the text's own lines hold no delimiter
    crate::text::lemma_lines_of_concat(ks);
    assert(ks.map_values(|l: Seq<char>| strip_cr(l)) =~= ks);
    crate::text::lemma_first_starting_none(lines(c), st, 0);
    assert(envrc_with_section(c, d) == c + section(d));
    // the data ends its last line
    crate::text::lemma_concat_lines_push(ds.drop_last(), ds.last());
    assert(ds.drop_last().push(ds.last()) =~= ds);
    assert(d.last() == '\n');
    assert(with_newline(d) == d);
    // the written text as whole lines
    let e_idx: int = (ks.len() + 2 + ds.len()) as int;
    let s_idx: int = (ks.len() + 1) as int;
    let all = ks + seq![Seq::<char>::empty()] + seq![st] + ds + seq![en];
    crate::text::lemma_concat_lines_append(ks, seq![Seq::<char>::empty()]);
    crate::text::lemma_concat_lines_append(ks + seq![Seq::<char>::empty()], seq![st]);
    crate::text::lemma_concat_lines_append(ks + seq![Seq::<char>::empty()] + seq![st], ds);
    crate::text::lemma_concat_lines_append(ks + seq![Seq::<char>::empty()] + seq![st] + ds, seq![en]);
    assert(crate::text::concat_lines(seq![Seq::<char>::empty()]) =~= seq!['\n']) by {
        crate::text::lemma_concat_lines_push(Seq::<Seq<char>>::empty(), Seq::<char>::empty());
        assert(Seq::<Seq<char>>::empty().push(Seq::<char>::empty()) =~= seq![Seq::<char>::empty()]);
        assert(crate::text::concat_lines(Seq::<Seq<char>>::empty()) =~= Seq::<char>::empty());
    }
    assert(crate::text::concat_lines(seq![st]) =~= st + seq!['\n']) by {
        crate::text::lemma_concat_lines_push(Seq::<Seq<char>>::empty(), st);
        assert(Seq::<Seq<char>>::empty().push(st) =~= seq![st]);
        assert(crate::text::concat_lines(Seq::<Seq<char>>::empty()) =~= Seq::<char>::empty());
    }
    assert(crate::text::concat_lines(seq![en]) =~= en + seq!['\n']) by {
        crate::text::lemma_concat_lines_push(Seq::<Seq<char>>::empty(), en);
        assert(Seq::<Seq<char>>::empty().push(en) =~= seq![en]);
        assert(crate::text::concat_lines(Seq::<Seq<char>>::empty()) =~= Seq::<char>::empty());
    }
    let r = c + section(d);
    assert(r =~= crate::text::concat_lines(all));
    assert forall|k: int| 0 <= k < all.len() implies crate::text::no_newline(#[trigger] all[k]) by {
        if k < ks.len() {
            assert(all[k] == ks[k]);
        } else if k == ks.len() {
        } else if k == ks.len() + 1 {
        } else if k < e_idx {
            assert(all[k] == ds[k - ks.len() - 2]);
        } else {
        }
    }
    crate::text::lemma_lines_of_concat(all);
    assert forall|k: int| 0 <= k < all.len() implies strip_cr(#[trigger] all[k]) == all[k] by {
        if k < ks.len() {
            assert(all[k] == ks[k]);
        } else if k == ks.len() {
            assert(all[k] == Seq::<char>::empty());
        } else if k == s_idx {
            assert(all[k] == st);
        } else if k < e_idx {
            assert(all[k] == ds[k - ks.len() - 2]);
        } else {
            assert(all[k] == en);
        }
    }
    assert(all.map_values(|l: Seq<char>| strip_cr(l)) =~= all);
    let ls = lines(r);
    assert(ls == all);
    // the section's delimiter lines are the first of their kind
    assert forall|j: int| 0 <= j < s_idx implies !starts_with(#[trigger] ls[j], st) by {
        if j < ks.len() {
            assert(ls[j] == ks[j]);
        }
    }
    lemma_first_starting_at(ls, st, 0, s_idx);
    assert forall|j: int| 0 <= j < e_idx implies !starts_with(#[trigger] ls[j], en) by {
        if j < ks.len() {
            assert(ls[j] == ks[j]);
        } else if ks.len() + 2 <= j {
            assert(ls[j] == ds[j - ks.len() - 2]);
        }
    }
    assert(ls[e_idx] == en);
    lemma_first_starting_at(ls, en, 0, e_idx);
    // rewriting keeps the lines before the section and puts the same section
    assert(ls.take(s_idx) =~= ks.push(Seq::<char>::empty()));
    if ks.len() > 0 {
        crate::text::lemma_join_newline_concat(ks);
        crate::text::lemma_join_push(ks, seq!['\n'], Seq::<char>::empty());
        assert(join(ks.push(Seq::<char>::empty()), seq!['\n']) =~= c);
    } else {
        assert(ks.push(Seq::<char>::empty()) =~= seq![Seq::<char>::empty()]);
        assert(c =~= Seq::<char>::empty());
    }
    assert(envrc_with_section(r, d) =~= r);
}

/// No line before the first one starting with `p` starts with it.
proof fn lemma_first_starting_before(ls: Seq<Seq<char>>, p: Seq<char>, i: int, k: int)
    requires
        0 <= i,
        crate::text::first_starting_from(ls, p, i) == Some(k),
    ensures
        i <= k < ls.len(),
        starts_with(ls[k], p),
        forall|j: int| i <= j < k ==> !starts_with(#[trigger] ls[j], p),
    decreases ls.len() - i,
{
    if i < ls.len() && !starts_with(ls[i], p) {
        lemma_first_starting_before(ls, p, i + 1, k);
    }
}

/// A non-empty text without a newline is one line.
proof fn lemma_lines_single(x: Seq<char>)
    requires
        x.len() > 0,
        crate::text::no_newline(x),
    ensures
        lines(x) == seq![x],
{
    crate::text::lemma_find_char(x, '\n');
    match crate::text::find_char(x, '\n') {
        Some(k) => {
            assert(x[k] == '\n');
        },
        None => {},
    }
}

/// Lines joined by newlines read back as themselves, when the last is not
/// empty and no earlier one ends in a carriage return.
pub proof fn lemma_lines_of_join(ks: Seq<Seq<char>>)
    requires
        ks.len() > 0,
        ks.last().len() > 0,
        forall|k: int| 0 <= k < ks.len() ==> crate::text::no_newline(#[trigger] ks[k]),
        forall|k: int| 0 <= k < ks.len() - 1 ==> (#[trigger] ks[k]).len() == 0 || ks[k].last() != '\r',
    ensures
        lines(join(ks, seq!['\n'])) == ks,
{
    let init = ks.drop_last();
    let x = ks.last();
    lemma_lines_single(x);
    if init.len() == 0 {
        assert(ks =~= seq![x]);
    } else {
        crate::text::lemma_join_push(init, seq!['\n'], x);
        assert(init.push(x) =~= ks);
        crate::text::lemma_join_newline_concat(init);
        let a = crate::text::concat_lines(init);
        assert(join(ks, seq!['\n']) =~= a + x);
        assert forall|k: int| 0 <= k < init.len() implies crate::text::no_newline(#[trigger] init[k]) by {
            assert(init[k] == ks[k]);
        }
        crate::text::lemma_lines_of_concat(init);
        assert forall|k: int| 0 <= k < init.len() implies strip_cr(#[trigger] init[k]) == init[k] by {
            assert(init[k] == ks[k]);
        }
        assert(init.map_values(|l: Seq<char>| strip_cr(l)) =~= init);
        crate::text::lemma_lines_concat(a, x);
        assert(lines(a + x) =~= ks);
    }
}

/// Writing the rsenv section again with the same data changes nothing, for
/// a text of whole lines that already holds a section (its first start
/// delimiter line before its first end delimiter line) and has no blank
/// last line after that section, and data of whole lines none of which
/// starts with the end delimiter (no line ending in a carriage return).
#[verifier::rlimit(100)]
pub proof fn lemma_section_rewrite_idempotent_existing(ks: Seq<Seq<char>>, ds: Seq<Seq<char>>)
    requires
        forall|k: int| 0 <= k < ks.len() ==> crate::text::no_newline(#[trigger] ks[k]),
        forall|k: int| 0 <= k < ks.len() ==> (#[trigger] ks[k]).len() == 0 || ks[k].last() != '\r',
        first_starting(ks, START_SECTION_DELIMITER@) matches Some(s) && first_starting(ks, END_SECTION_DELIMITER@) matches Some(e)
            && s < e && (e + 1 == ks.len() || ks.last().len() > 0),
        ds.len() > 0,
        forall|k: int| 0 <= k < ds.len() ==> crate::text::no_newline(#[trigger] ds[k]),
        forall|k: int| 0 <= k < ds.len() ==> (#[trigger] ds[k]).len() == 0 || ds[k].last() != '\r',
        forall|k: int| 0 <= k < ds.len() ==> !starts_with(#[trigger] ds[k], END_SECTION_DELIMITER@),
    ensures
        envrc_with_section(envrc_with_section(crate::text::concat_lines(ks), crate::text::concat_lines(ds)), crate::text::concat_lines(ds))
            == envrc_with_section(crate::text::concat_lines(ks), crate::text::concat_lines(ds)),
{
    lemma_delimiters_one_line();
    lemma_start_is_no_end();
    let st = START_SECTION_DELIMITER@;
    let en = END_SECTION_DELIMITER@;
    let s = first_starting(ks, st)->0;
    let e = first_starting(ks, en)->0;
    lemma_first_starting_before(ks, st, 0, s);
    lemma_first_starting_before(ks, en, 0, e);
    let c = crate::text::concat_lines(ks);
    let d = crate::text::concat_lines(ds);
    crate::text::lemma_lines_of_concat(ks);
    assert(ks.map_values(|l: Seq<char>| strip_cr(l)) =~= ks);
    assert(lines(c) == ks);
    // the data ends its last line
    crate::text::lemma_concat_lines_push(ds.drop_last(), ds.last());
    assert(ds.drop_last().push(ds.last()) =~= ds);
    assert(with_newline(d) == d);
    let pre = ks.take(s);
    let suf = ks.skip(e + 1);
    let tail = if e + 1 < ks.len() {
        join(suf, seq!['\n'])
    } else {
        Seq::<char>::empty()
    };
    let r = join(pre, seq!['\n']) + section(d) + tail;
    assert(envrc_with_section(c, d) == r);
    // the head of the result as whole lines
    let pp: Seq<Seq<char>> = if s > 0 {
        pre
    } else {
        seq![Seq::<char>::empty()]
    };
    let a = pp + seq![st] + ds + seq![en];
    crate::text::lemma_concat_lines_append(pp, seq![st]);
    crate::text::lemma_concat_lines_append(pp + seq![st], ds);
    crate::text::lemma_concat_lines_append(pp + seq![st] + ds, seq![en]);
    assert(crate::text::concat_lines(seq![st]) =~= st + seq!['\n']) by {
        crate::text::lemma_concat_lines_push(Seq::<Seq<char>>::empty(), st);
        assert(Seq::<Seq<char>>::empty().push(st) =~= seq![st]);
        assert(crate::text::concat_lines(Seq::<Seq<char>>::empty()) =~= Seq::<char>::empty());
    }
    assert(crate::text::concat_lines(seq![en]) =~= en + seq!['\n']) by {
        crate::text::lemma_concat_lines_push(Seq::<Seq<char>>::empty(), en);
        assert(Seq::<Seq<char>>::empty().push(en) =~= seq![en]);
        assert(crate::text::concat_lines(Seq::<Seq<char>>::empty()) =~= Seq::<char>::empty());
    }
    if s > 0 {
        crate::text::lemma_join_newline_concat(pre);
        assert(join(pre, seq!['\n']) + section(d) =~= crate::text::concat_lines(a));
    } else {
        assert(crate::text::concat_lines(seq![Seq::<char>::empty()]) =~= seq!['\n']) by {
            crate::text::lemma_concat_lines_push(Seq::<Seq<char>>::empty(), Seq::<char>::empty());
            assert(Seq::<Seq<char>>::empty().push(Seq::<char>::empty()) =~= seq![Seq::<char>::empty()]);
            assert(crate::text::concat_lines(Seq::<Seq<char>>::empty()) =~= Seq::<char>::empty());
        }
        assert(pre =~= Seq::<Seq<char>>::empty());
        assert(join(pre, seq!['\n']) + section(d) =~= crate::text::concat_lines(a));
    }
    let h = crate::text::concat_lines(a);
    assert(r == h + tail);
    assert(h.last() == '\n');
    // the lines of the result
    assert forall|k: int| 0 <= k < a.len() implies crate::text::no_newline(#[trigger] a[k]) && strip_cr(a[k]) == a[k] by {
        if k < pp.len() {
            if s > 0 {
                assert(a[k] == ks[k]);
            } else {
                assert(a[k] == Seq::<char>::empty());
            }
        } else if k == pp.len() {
            assert(a[k] == st);
        } else if k < pp.len() + 1 + ds.len() {
            assert(a[k] == ds[k - pp.len() - 1]);
        } else {
            assert(a[k] == en);
        }
    }
    crate::text::lemma_lines_of_concat(a);
    assert(a.map_values(|l: Seq<char>| strip_cr(l)) =~= a);
    crate::text::lemma_lines_concat(h, tail);
    let lt = if e + 1 < ks.len() {
        suf
    } else {
        Seq::<Seq<char>>::empty()
    };
    if e + 1 < ks.len() {
        assert forall|k: int| 0 <= k < suf.len() implies crate::text::no_newline(#[trigger] suf[k]) by {
            assert(suf[k] == ks[e + 1 + k]);
        }
        assert forall|k: int| 0 <= k < suf.len() - 1 implies (#[trigger] suf[k]).len() == 0 || suf[k].last() != '\r' by {
            assert(suf[k] == ks[e + 1 + k]);
        }
        assert(suf.last() == ks.last());
        lemma_lines_of_join(suf);
    } else {
        assert(lines(tail) =~= Seq::<Seq<char>>::empty());
    }
    let ls = a + lt;
    assert(lines(r) == ls);
    // the section's delimiter lines are the first of their kind
    let s2 = pp.len() as int;
    let e2 = (pp.len() + 1 + ds.len()) as int;
    assert forall|j: int| 0 <= j < s2 implies !starts_with(#[trigger] ls[j], st) by {
        if s > 0 {
            assert(ls[j] == ks[j]);
        } else {
            assert(ls[j] == Seq::<char>::empty());
        }
    }
    assert(ls[s2] == st);
    lemma_first_starting_at(ls, st, 0, s2);
    assert forall|j: int| 0 <= j < e2 implies !starts_with(#[trigger] ls[j], en) by {
        if j < s2 {
            if s > 0 {
                assert(ls[j] == ks[j]);
            } else {
                assert(ls[j] == Seq::<char>::empty());
            }
        } else if j == s2 {
            assert(ls[j] == st);
        } else {
            assert(ls[j] == ds[j - s2 - 1]);
        }
    }
    assert(ls[e2] == en);
    lemma_first_starting_at(ls, en, 0, e2);
    assert(ls.take(s2) =~= pp);
    assert(ls.skip(e2 + 1) =~= lt);
    if s == 0 {
        assert(join(pp, seq!['\n']) =~= Seq::<char>::empty());
        assert(join(pre, seq!['\n']) =~= Seq::<char>::empty());
    }
    assert(envrc_with_section(r, d) =~= r);
}

/// Deleting the rsenv section from a text into which one was put gives the
/// text back, followed by the blank line written before the section; for a
/// text that holds no section start.
pub proof fn lemma_section_deleted_undoes_added(content: Seq<char>, data: Seq<char>)
    requires
        !crate::text::contains(content, START_SECTION_DELIMITER@),
    ensures
        without_section(envrc_with_section(content, data)) == content + seq!['\n'],
{
    lemma_delimiters_one_line();
    let st = START_SECTION_DELIMITER@;
    let en = END_SECTION_DELIMITER@;
    crate::text::lemma_find_from(content, st, 0);
    crate::text::lemma_no_line_starts_with(content, st);
    crate::text::lemma_first_starting_none(lines(content), st, 0);
    assert(envrc_with_section(content, data) == content + section(data));
    let c = content + section(data);
    let n = content.len() as int;
    let s0 = n + 1;
    assert(c.subrange(s0, s0 + st.len()) =~= st);
    assert forall|j: int| 0 <= j < s0 implies !occurs_at(c, st, j) by {
        if occurs_at(c, st, j) {
            if j + st.len() <= n {
                assert(c.subrange(j, j + st.len()) =~= content.subrange(j, j + st.len()));
                assert(occurs_at(content, st, j));
            } else {
                assert(c[n] == '\n');
                assert(c.subrange(j, j + st.len())[n - j] == c[n]);
                assert(st[n - j] != '\n');
            }
        }
    }
    crate::text::lemma_find_from(c, st, 0);
    assert(s0 + st.len() <= c.len());
    assert(occurs_at(c, st, s0));
    assert(crate::text::find(c, st) == Some(s0)) by {
        match crate::text::find(c, st) {
            Some(k) => {
                if k < s0 {
                    assert(!occurs_at(c, st, k));
                }
                if k > s0 {
                    assert(!occurs_at(c, st, s0));
                }
            },
            None => {
                assert(!occurs_at(c, st, s0));
            },
        }
    }
    let l = c.len() as int;
    let e0 = l - 1 - en.len();
    assert(c[l - 1] == '\n');
    assert(c.subrange(e0, l - 1) =~= en);
    assert(occurs_at(c, en, e0));
    assert(!occurs_at(c, en, l - en.len())) by {
        if occurs_at(c, en, l - en.len()) {
            assert(c.subrange(l - en.len(), l)[en.len() - 1] == c[l - 1]);
        }
    }
    assert(e0 >= s0 + st.len());
    assert(rfind_in(c, en, s0 + st.len(), l - en.len()) == rfind_in(c, en, s0 + st.len(), e0));
    assert(rfind_from(c, en, s0 + st.len()) == Some(e0));
    assert(section_span(c) == Some((s0, l)));
    assert(c.take(s0) =~= content + seq!['\n']);
    assert(c.skip(l) =~= Seq::<char>::empty());
}

/// The content after deleting the rsenv section.
pub fn section_deleted(content: &str) -> (r: String)
    ensures
        r@ == without_section(content@),
{
    let cv = chars_of(content);
    let start = chars_of(START_SECTION_DELIMITER);
    let end = chars_of(END_SECTION_DELIMITER);
    match find_vec(&cv, &start) {
        None => string_of(&cv),
        Some(s) => {
            proof {
                crate::text::lemma_find_from(cv@, start@, 0);
                assert(crate::text::find_from(cv@, start@, 0) == Some(s as int));
                assert(occurs_at(cv@, start@, s as int));
            }
            let n = cv.len();
            let sl = start.len();
            assert(s + sl <= n);
            match rfind_from_exec(&cv, &end, s + sl) {
                None => string_of(&cv),
                Some(e) => {
                    proof {
                        lemma_rfind_in_occurs(cv@, end@, (s + start.len()) as int, cv@.len() - end@.len());
                        assert(occurs_at(cv@, end@, e as int));
                    }
                    let el = end.len();
                    assert(e + el <= n);
                    let mut after = e + el;
                    if after < cv.len() && cv[after] == '\n' {
                        after = after + 1;
                    }
                    let mut r = slice(&cv, 0, s);
                    let tail = slice(&cv, after, cv.len());
                    push_all(&mut r, &tail);
                    assert(r@ =~= without_section(content@));
                    string_of(&r)
                },
            }
        },
    }
}

/// A position `rfind_in` gives is an occurrence.
pub proof fn lemma_rfind_in_occurs(s: Seq<char>, p: Seq<char>, lo: int, hi: int)
    ensures
        rfind_in(s, p, lo, hi) matches Some(k) ==> occurs_at(s, p, k) && lo <= k <= hi,
    decreases hi - lo + 1,
{
    if hi >= lo && !occurs_at(s, p, hi) {
        lemma_rfind_in_occurs(s, p, lo, hi - 1);
    }
}

/// Delete the rsenv section from the file.
pub fn delete_section<F: FileSystem>(fs: &F, file_path: &str) -> (r: Result<(), ApplicationError>)
    ensures
        r matches Err(e) ==> e is OperationFailed,
{
    let content = match fs.read_to_string(file_path) {
        Ok(c) => c,
        Err(e) => return Err(io_failed(context2("read file at ", file_path), e)),
    };
    let new_content = section_deleted(content.as_str());
    match fs.write(file_path, new_content.as_str()) {
        Ok(()) => Ok(()),
        Err(e) => Err(io_failed(context2("write file at ", file_path), e)),
    }
}

} // verus!
