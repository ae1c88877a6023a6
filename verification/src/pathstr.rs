//! Paths as `/`-separated text.
//!
//! The library keeps paths as plain strings. These functions give the parts
//! of a path that the rules of this crate read: the last component, the
//! directory holding it, the extension, and joining.
use vstd::prelude::*;

use crate::text::{
    chars_of, concat, ends_with, rfind_char, rfind_char_exec, slice, starts_with,
    starts_with_vec, string_of,
};

verus! {

/// The path starts at the root.
pub open spec fn is_absolute(p: Seq<char>) -> bool {
    p.len() > 0 && p[0] == '/'
}

/// The text after the last `/` (the whole text when there is none).
pub open spec fn last_component(p: Seq<char>) -> Seq<char> {
    match rfind_char(p, '/') {
        Some(i) => p.skip(i + 1),
        None => p,
    }
}

/// The last component of the path, unless it is empty, `.` or `..`.
pub open spec fn file_name(p: Seq<char>) -> Option<Seq<char>> {
    let f = last_component(p);
    if f.len() == 0 || f == seq!['.'] || f == seq!['.', '.'] {
        None
    } else {
        Some(f)
    }
}

/// The path without its last component: `a/b` → `a`, `/a` → `/`,
/// `a` → `` (empty), and no parent for the empty path or the root.
pub open spec fn parent(p: Seq<char>) -> Option<Seq<char>> {
    match rfind_char(p, '/') {
        Some(i) => if i == 0 {
            if p.len() == 1 {
                None
            } else {
                Some(seq!['/'])
            }
        } else {
            Some(p.take(i))
        },
        None => if p.len() == 0 {
            None
        } else {
            Some(seq![])
        },
    }
}

/// `base` joined with `rel`: an absolute `rel` replaces `base`.
pub open spec fn join(base: Seq<char>, rel: Seq<char>) -> Seq<char> {
    if is_absolute(rel) || base.len() == 0 {
        rel
    } else if base.last() == '/' {
        base + rel
    } else {
        base + seq!['/'] + rel
    }
}

/// The extension of the file name: the text after its last `.`, when that
/// `.` is not the first char.
pub open spec fn extension(p: Seq<char>) -> Option<Seq<char>> {
    match file_name(p) {
        None => None,
        Some(f) => match rfind_char(f, '.') {
            Some(i) => if i > 0 {
                Some(f.skip(i + 1))
            } else {
                None
            },
            None => None,
        },
    }
}

/// The file name without its extension.
pub open spec fn file_stem(p: Seq<char>) -> Option<Seq<char>> {
    match file_name(p) {
        None => None,
        Some(f) => match rfind_char(f, '.') {
            Some(i) => if i > 0 {
                Some(f.take(i))
            } else {
                Some(f)
            },
            None => Some(f),
        },
    }
}

/// The path with its file name replaced by `name` (the name appended when
/// the path has no parent).
pub open spec fn with_file_name(p: Seq<char>, name: Seq<char>) -> Seq<char> {
    match parent(p) {
        Some(d) => join(d, name),
        None => join(p, name),
    }
}

/// `p` relative to `base`, when `base` is `p` itself or one of its
/// directories.
pub open spec fn strip_prefix(p: Seq<char>, base: Seq<char>) -> Option<Seq<char>> {
    if p == base {
        Some(seq![])
    } else if base.len() > 0 && base.last() == '/' && starts_with(p, base) {
        Some(p.skip(base.len() as int))
    } else if starts_with(p, base + seq!['/']) {
        Some(p.skip(base.len() + 1int))
    } else {
        None
    }
}

// ------------------------------------------------------------------
// Executable versions
// ------------------------------------------------------------------

/// Index just after the last `/`, or 0.
fn last_component_start(v: &Vec<char>) -> (k: usize)
    ensures
        k <= v.len(),
        v@.skip(k as int) == last_component(v@),
{
    match rfind_char_exec(v, '/') {
        Some(i) => i + 1,
        None => {
            assert(v@.skip(0) =~= v@);
            0
        },
    }
}

/// The last component of `v`, unless empty, `.` or `..`.
pub fn file_name_vec(v: &Vec<char>) -> (r: Option<Vec<char>>)
    ensures
        match r {
            Some(f) => file_name(v@) == Some(f@),
            None => file_name(v@) is None,
        },
{
    let k = last_component_start(v);
    let f = slice(v, k, v.len());
    assert(f@ =~= last_component(v@));
    if f.len() == 0 || (f.len() == 1 && f[0] == '.') || (f.len() == 2 && f[0] == '.' && f[1]
        == '.') {
        proof {
            if f.len() == 1 && f[0] == '.' {
                assert(f@ =~= seq!['.']);
            }
            if f.len() == 2 && f[0] == '.' && f[1] == '.' {
                assert(f@ =~= seq!['.', '.']);
            }
        }
        None
    } else {
        proof {
            if f@ == seq!['.'] {
                assert(f@[0] == '.');
            }
            if f@ == seq!['.', '.'] {
                assert(f@[0] == '.' && f@[1] == '.');
            }
        }
        Some(f)
    }
}

/// The directory part of `v`.
pub fn parent_vec(v: &Vec<char>) -> (r: Option<Vec<char>>)
    ensures
        match r {
            Some(d) => parent(v@) == Some(d@),
            None => parent(v@) is None,
        },
{
    match rfind_char_exec(v, '/') {
        Some(i) => {
            if i == 0 {
                if v.len() == 1 {
                    None
                } else {
                    let r = vec!['/'];
                    assert(r@ =~= seq!['/']);
                    Some(r)
                }
            } else {
                let d = slice(v, 0, i);
                assert(d@ =~= v@.take(i as int));
                Some(d)
            }
        },
        None => {
            if v.len() == 0 {
                None
            } else {
                let r: Vec<char> = Vec::new();
                assert(r@ =~= Seq::<char>::empty());
                Some(r)
            }
        },
    }
}

/// `base` joined with `rel`.
pub fn join_vec(base: &Vec<char>, rel: &Vec<char>) -> (r: Vec<char>)
    ensures
        r@ == join(base@, rel@),
{
    if (rel.len() > 0 && rel[0] == '/') || base.len() == 0 {
        rel.clone()
    } else if base[base.len() - 1] == '/' {
        concat(base, rel)
    } else {
        let mut r = base.clone();
        r.push('/');
        let r2 = concat(&r, rel);
        assert(r2@ =~= base@ + seq!['/'] + rel@);
        r2
    }
}

/// `Path::join` on text.
pub fn join_str(base: &str, rel: &str) -> (r: String)
    ensures
        r@ == join(base@, rel@),
{
    let b = chars_of(base);
    let r = chars_of(rel);
    string_of(&join_vec(&b, &r))
}

/// The extension of `v`.
pub fn extension_vec(v: &Vec<char>) -> (r: Option<Vec<char>>)
    ensures
        match r {
            Some(e) => extension(v@) == Some(e@),
            None => extension(v@) is None,
        },
{
    match file_name_vec(v) {
        None => None,
        Some(f) => match rfind_char_exec(&f, '.') {
            Some(i) => {
                if i > 0 {
                    let e = slice(&f, i + 1, f.len());
                    assert(e@ =~= f@.skip(i + 1));
                    Some(e)
                } else {
                    None
                }
            },
            None => None,
        },
    }
}

/// The file stem of `v`.
pub fn file_stem_vec(v: &Vec<char>) -> (r: Option<Vec<char>>)
    ensures
        match r {
            Some(e) => file_stem(v@) == Some(e@),
            None => file_stem(v@) is None,
        },
{
    match file_name_vec(v) {
        None => None,
        Some(f) => match rfind_char_exec(&f, '.') {
            Some(i) => {
                if i > 0 {
                    let e = slice(&f, 0, i);
                    assert(e@ =~= f@.take(i as int));
                    Some(e)
                } else {
                    Some(f)
                }
            },
            None => Some(f),
        },
    }
}

/// `v` with its file name replaced by `name`.
pub fn with_file_name_vec(v: &Vec<char>, name: &Vec<char>) -> (r: Vec<char>)
    ensures
        r@ == with_file_name(v@, name@),
{
    match parent_vec(v) {
        Some(d) => join_vec(&d, name),
        None => join_vec(v, name),
    }
}

/// `v` relative to `base`.
pub fn strip_prefix_vec(v: &Vec<char>, base: &Vec<char>) -> (r: Option<Vec<char>>)
    ensures
        match r {
            Some(e) => strip_prefix(v@, base@) == Some(e@),
            None => strip_prefix(v@, base@) is None,
        },
{
    if crate::text::eq_vec(v, base) {
        let e: Vec<char> = Vec::new();
        assert(e@ =~= Seq::<char>::empty());
        return Some(e);
    }
    if base.len() > 0 && base[base.len() - 1] == '/' && starts_with_vec(v, base) {
        let e = slice(v, base.len(), v.len());
        assert(e@ =~= v@.skip(base.len() as int));
        return Some(e);
    }
    let mut b2 = base.clone();
    b2.push('/');
    assert(b2@ =~= base@ + seq!['/']);
    if starts_with_vec(v, &b2) {
        let e = slice(v, base.len() + 1, v.len());
        assert(e@ =~= v@.skip(base.len() + 1));
        return Some(e);
    }
    None
}

/// The path starts at the root.
pub fn is_absolute_vec(v: &Vec<char>) -> (b: bool)
    ensures
        b == is_absolute(v@),
{
    v.len() > 0 && v[0] == '/'
}

/// The text of an optional string.
pub open spec fn opt_text(o: Option<String>) -> Option<Seq<char>> {
    match o {
        Some(x) => Some(x@),
        None => None,
    }
}

/// The file name of a path.
pub fn file_name_str(p: &str) -> (r: Option<String>)
    ensures
        opt_text(r) == file_name(p@),
{
    match file_name_vec(&chars_of(p)) {
        Some(f) => Some(string_of(&f)),
        None => None,
    }
}

/// The directory part of a path.
pub fn parent_str(p: &str) -> (r: Option<String>)
    ensures
        opt_text(r) == parent(p@),
{
    match parent_vec(&chars_of(p)) {
        Some(d) => Some(string_of(&d)),
        None => None,
    }
}

/// A path relative to `base`.
pub fn strip_prefix_str(p: &str, base: &str) -> (r: Option<String>)
    ensures
        opt_text(r) == strip_prefix(p@, base@),
{
    match strip_prefix_vec(&chars_of(p), &chars_of(base)) {
        Some(e) => Some(string_of(&e)),
        None => None,
    }
}

/// A path with its file name replaced.
pub fn with_file_name_str(p: &str, name: &str) -> (r: String)
    ensures
        r@ == with_file_name(p@, name@),
{
    string_of(&with_file_name_vec(&chars_of(p), &chars_of(name)))
}

/// The path starts at the root.
pub fn is_absolute_str(p: &str) -> (b: bool)
    ensures
        b == is_absolute(p@),
{
    is_absolute_vec(&chars_of(p))
}

/// The file name of the path is `name`.
pub fn has_file_name(p: &str, name: &str) -> (b: bool)
    ensures
        b == (file_name(p@) == Some(name@)),
{
    match file_name_vec(&chars_of(p)) {
        Some(f) => crate::text::eq_str(&f, name),
        None => false,
    }
}

/// The parent of a path is a shorter prefix of it.
pub proof fn lemma_parent_prefix(p: Seq<char>)
    ensures
        parent(p) matches Some(d) ==> d.len() < p.len() && starts_with(p, d),
{
    match rfind_char(p, '/') {
        Some(i) => {
            crate::text::lemma_rfind_char_bounds(p, '/');
            if i == 0 && p.len() != 1 {
                assert(p.subrange(0, 1) =~= seq!['/']);
            } else if i != 0 {
                assert(p.subrange(0, i) =~= p.take(i));
            }
        },
        None => {
            if p.len() > 0 {
                assert(p.subrange(0, 0) =~= Seq::<char>::empty());
            }
        },
    }
}

/// The last component of a path holds no `/`.
pub proof fn lemma_last_component_no_slash(p: Seq<char>)
    ensures
        forall|j: int| 0 <= j < last_component(p).len() ==> last_component(p)[j] != '/',
{
    crate::text::lemma_rfind_char_last(p, '/');
    crate::text::lemma_rfind_char_bounds(p, '/');
    match rfind_char(p, '/') {
        Some(i) => {
            assert forall|j: int| 0 <= j < last_component(p).len() implies last_component(p)[j] != '/' by {
                assert(last_component(p)[j] == p[i + 1 + j]);
            }
        },
        None => {},
    }
}

/// A name without `/` (and not `.` or `..`) joined onto a directory is the
/// file name of the result.
pub proof fn lemma_file_name_join(d: Seq<char>, n: Seq<char>)
    requires
        n.len() > 0,
        n != seq!['.'],
        n != seq!['.', '.'],
        forall|j: int| 0 <= j < n.len() ==> n[j] != '/',
    ensures
        file_name(join(d, n)) == Some(n),
{
    assert(!is_absolute(n));
    crate::text::lemma_rfind_char_append(seq![], n, '/');
    assert(seq![] + n =~= n);
    if d.len() == 0 {
    } else if d.last() == '/' {
        crate::text::lemma_rfind_char_append(d, n, '/');
        assert(d.drop_last().push('/') =~= d);
        crate::text::lemma_rfind_char_push(d.drop_last(), '/');
        assert((d + n).skip(d.len() as int) =~= n);
    } else {
        crate::text::lemma_rfind_char_append(d + seq!['/'], n, '/');
        crate::text::lemma_rfind_char_push(d, '/');
        assert(d.push('/') =~= d + seq!['/']);
        assert((d + seq!['/'] + n).skip(d.len() + 1int) =~= n);
    }
}

/// Path order (`Path`'s component order, for paths without repeated or
/// trailing separators): lexicographic on chars, the separator lowest.
pub open spec fn path_lt(a: Seq<char>, b: Seq<char>) -> bool
    decreases a.len(),
{
    if a.len() == 0 {
        b.len() > 0
    } else if b.len() == 0 {
        false
    } else if a[0] == b[0] {
        path_lt(a.drop_first(), b.drop_first())
    } else if a[0] == '/' {
        true
    } else if b[0] == '/' {
        false
    } else {
        a[0] < b[0]
    }
}

/// Path order is a strict order.
pub proof fn lemma_path_order(a: Seq<char>, b: Seq<char>, c: Seq<char>)
    ensures
        !path_lt(a, a),
        !(path_lt(a, b) && path_lt(b, a)),
        path_lt(a, b) && path_lt(b, c) ==> path_lt(a, c),
    decreases a.len(),
{
    if a.len() > 0 {
        lemma_path_order(a.drop_first(), a.drop_first(), a.drop_first());
    }
    if a.len() > 0 && b.len() > 0 {
        lemma_path_order(a.drop_first(), b.drop_first(), b.drop_first());
    }
    if a.len() > 0 && b.len() > 0 && c.len() > 0 {
        lemma_path_order(a.drop_first(), b.drop_first(), c.drop_first());
    }
}

/// `a` precedes `b` in path order.
pub fn path_lt_exec(a: &Vec<char>, b: &Vec<char>) -> (r: bool)
    ensures
        r == path_lt(a@, b@),
{
    let mut i: usize = 0;
    assert(a@.skip(0) =~= a@);
    assert(b@.skip(0) =~= b@);
    while i < a.len() && i < b.len() && a[i] == b[i]
        invariant
            i <= a.len(),
            i <= b.len(),
            path_lt(a@, b@) == path_lt(a@.skip(i as int), b@.skip(i as int)),
        decreases a.len() - i,
    {
        assert(a@.skip(i as int).drop_first() =~= a@.skip(i + 1));
        assert(b@.skip(i as int).drop_first() =~= b@.skip(i + 1));
        i = i + 1;
    }
    if i == a.len() {
        return i < b.len();
    }
    if i == b.len() {
        return false;
    }
    assert(a@.skip(i as int)[0] == a@[i as int]);
    assert(b@.skip(i as int)[0] == b@[i as int]);
    if a[i] == '/' {
        true
    } else if b[i] == '/' {
        false
    } else {
        a[i] < b[i]
    }
}

} // verus!
