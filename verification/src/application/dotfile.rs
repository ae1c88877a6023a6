//! Dot-file neutralisation for vault storage: `.gitignore` is stored as
//! `dot.gitignore` so that it has no effect inside the vault.
use vstd::prelude::*;

use crate::pathstr::is_absolute;
use crate::text::{chars_of, concat, eq_vec, join, join_vec, slice, split, split_char, starts_with, starts_with_vec, string_of, views};

verus! {

/// The prefix of a neutralised name.
pub const DOT_PREFIX: &'static str = "dot.";

/// `.foo` → `dot.foo`; `.`, `..`, names already starting with `dot.` and
/// names not starting with `.` are kept.
pub open spec fn neutralized(n: Seq<char>) -> Seq<char> {
    if n == seq!['.'] || n == seq!['.', '.'] {
        n
    } else if starts_with(n, seq!['d', 'o', 't', '.']) {
        n
    } else if n.len() > 1 && n[0] == '.' {
        seq!['d', 'o', 't'] + n
    } else {
        n
    }
}

/// `dot.foo` → `.foo`; everything else (including `dot.` alone) is kept.
pub open spec fn restored(n: Seq<char>) -> Seq<char> {
    if starts_with(n, seq!['d', 'o', 't', '.']) && n.len() > 4 {
        seq!['.'] + n.skip(4)
    } else {
        n
    }
}

/// A path component is a dot-file: it starts with `.` and is neither `.` nor `..`.
pub open spec fn is_dotfile_spec(n: Seq<char>) -> bool {
    n.len() > 1 && n[0] == '.' && n != seq!['.', '.']
}

/// Is `name` a dot-file or dot-directory?
pub fn is_dotfile(name: &str) -> (b: bool)
    ensures
        b == is_dotfile_spec(name@),
{
    let v = chars_of(name);
    let dd = vec!['.', '.'];
    v.len() > 1 && v[0] == '.' && !eq_vec(&v, &dd)
}

fn neutralized_vec(v: &Vec<char>) -> (r: Vec<char>)
    ensures
        r@ == neutralized(v@),
{
    let one = vec!['.'];
    let two = vec!['.', '.'];
    let pre = vec!['d', 'o', 't', '.'];
    if eq_vec(v, &one) || eq_vec(v, &two) {
        return v.clone();
    }
    if starts_with_vec(v, &pre) {
        return v.clone();
    }
    if v.len() > 1 && v[0] == '.' {
        let d = vec!['d', 'o', 't'];
        concat(&d, v)
    } else {
        v.clone()
    }
}

fn restored_vec(v: &Vec<char>) -> (r: Vec<char>)
    ensures
        r@ == restored(v@),
{
    let pre = vec!['d', 'o', 't', '.'];
    if starts_with_vec(v, &pre) && v.len() > 4 {
        let d = vec!['.'];
        let rest = slice(v, 4, v.len());
        assert(rest@ =~= v@.skip(4));
        concat(&d, &rest)
    } else {
        v.clone()
    }
}

/// Transform a dot-file name to its neutralised form: `.foo` → `dot.foo`.
pub fn neutralize_name(name: &str) -> (r: String)
    ensures
        r@ == neutralized(name@),
{
    let v = chars_of(name);
    string_of(&neutralized_vec(&v))
}

/// Transform a neutralised name back to its dot-file form: `dot.foo` → `.foo`.
pub fn restore_name(name: &str) -> (r: String)
    ensures
        r@ == restored(name@),
{
    let v = chars_of(name);
    string_of(&restored_vec(&v))
}

/// A named component of a path: neither empty (from `//` or a trailing
/// `/`) nor `.`.
pub open spec fn is_named(n: Seq<char>) -> bool {
    n.len() > 0 && n != seq!['.']
}

/// The named components of a path, in order, as the standard library walks
/// them: repeated and trailing separators and `.` components are passed
/// over.
pub open spec fn named_components(p: Seq<char>) -> Seq<Seq<char>> {
    split(p, '/').filter(|n: Seq<char>| is_named(n))
}

/// A relative path that starts with a `.` component keeps it as its first
/// component.
pub open spec fn leading_dot(p: Seq<char>) -> bool {
    !is_absolute(p) && split(p, '/')[0] == seq!['.']
}

/// The path rebuilt from `named` (the converted named components) as a
/// path buffer collects them: the root first for an absolute path, a
/// leading `.` kept, the components joined by `/`.
pub open spec fn rebuilt(p: Seq<char>, named: Seq<Seq<char>>) -> Seq<char> {
    let lead: Seq<Seq<char>> = if leading_dot(p) {
        seq![seq!['.']]
    } else {
        seq![]
    };
    (if is_absolute(p) {
        seq!['/']
    } else {
        seq![]
    }) + join(lead + named, seq!['/'])
}

/// Every component of `p` neutralised.
pub open spec fn neutralized_path(p: Seq<char>) -> Seq<char> {
    rebuilt(p, named_components(p).map_values(|n: Seq<char>| neutralized(n)))
}

/// Every component of `p` restored.
pub open spec fn restored_path(p: Seq<char>) -> Seq<char> {
    rebuilt(p, named_components(p).map_values(|n: Seq<char>| restored(n)))
}

/// The named components of a path.
fn named_components_vec(v: &Vec<char>) -> (r: Vec<Vec<char>>)
    ensures
        views(r@) == named_components(v@),
{
    let parts = split_char(v, '/');
    let ghost pred = |n: Seq<char>| is_named(n);
    let mut out: Vec<Vec<char>> = Vec::new();
    let mut i: usize = 0;
    let dot = vec!['.'];
    assert(views(parts@).take(0).filter(pred) =~= Seq::<Seq<char>>::empty());
    while i < parts.len()
        invariant
            i <= parts.len(),
            dot@ == seq!['.'],
            views(parts@) == split(v@, '/'),
            pred == (|n: Seq<char>| is_named(n)),
            views(out@) == views(parts@).take(i as int).filter(pred),
        decreases parts.len() - i,
    {
        let ghost li = views(parts@)[i as int];
        assert(li == parts@[i as int]@);
        assert(views(parts@).take(i + 1) =~= views(parts@).take(i as int).push(li));
        proof {
            reveal_with_fuel(Seq::filter, 1);
            assert(views(parts@).take(i as int).push(li).drop_last() =~= views(parts@).take(i as int));
        }
        if parts[i].len() > 0 && !eq_vec(&parts[i], &dot) {
            let ghost old_out = views(out@);
            let c = crate::text::copy_vec(&parts[i]);
            out.push(c);
            assert(views(out@) =~= old_out.push(li));
        }
        i = i + 1;
    }
    assert(views(parts@).take(i as int) =~= views(parts@));
    out
}

/// The path rebuilt from its converted named components.
fn rebuilt_vec(v: &Vec<char>, named: &Vec<Vec<char>>) -> (r: String)
    ensures
        r@ == rebuilt(v@, views(named@)),
{
    let parts = split_char(v, '/');
    let absolute = v.len() > 0 && v[0] == '/';
    let dot = vec!['.'];
    assert(dot@ =~= seq!['.']);
    let lead_dot = !absolute && eq_vec(&parts[0], &dot);
    assert(views(parts@)[0] == parts@[0]@);
    assert(lead_dot == leading_dot(v@));
    let mut all: Vec<Vec<char>> = Vec::new();
    if lead_dot {
        all.push(dot);
        assert(views(all@) =~= seq![seq!['.']]);
    } else {
        assert(views(all@) =~= Seq::<Seq<char>>::empty());
    }
    let ghost head = views(all@);
    assert(head =~= (if leading_dot(v@) { seq![seq!['.']] } else { Seq::<Seq<char>>::empty() }));
    let mut i: usize = 0;
    while i < named.len()
        invariant
            i <= named.len(),
            views(all@) =~= head + views(named@).take(i as int),
        decreases named.len() - i,
    {
        let c = crate::text::copy_vec(&named[i]);
        let ghost old_all = views(all@);
        all.push(c);
        assert(views(all@) =~= old_all.push(c@));
        assert(views(named@)[i as int] == named@[i as int]@);
        assert(views(named@).take(i + 1) =~= views(named@).take(i as int).push(named@[i as int]@));
        i = i + 1;
    }
    assert(views(named@).take(i as int) =~= views(named@));
    let sep = vec!['/'];
    assert(sep@ =~= seq!['/']);
    let joined = join_vec(&all, &sep);
    if absolute {
        let root = vec!['/'];
        let r = concat(&root, &joined);
        assert(r@ =~= rebuilt(v@, views(named@)));
        string_of(&r)
    } else {
        assert(joined@ =~= rebuilt(v@, views(named@)));
        string_of(&joined)
    }
}

/// Neutralise every dot-component of a path:
/// `.hidden/.secret/file.txt` → `dot.hidden/dot.secret/file.txt`.
pub fn neutralize_path(path: &str) -> (r: String)
    ensures
        r@ == neutralized_path(path@),
{
    let v = chars_of(path);
    let parts = named_components_vec(&v);
    let mut out: Vec<Vec<char>> = Vec::new();
    let mut i: usize = 0;
    while i < parts.len()
        invariant
            i <= parts.len(),
            views(parts@) == named_components(v@),
            views(out@) =~= views(parts@).take(i as int).map_values(|n: Seq<char>| neutralized(n)),
        decreases parts.len() - i,
    {
        let c = neutralized_vec(&parts[i]);
        let ghost old_out = views(out@);
        assert(views(parts@)[i as int] == parts@[i as int]@);
        out.push(c);
        assert(views(out@) =~= old_out.push(c@));
        assert(views(parts@).take(i + 1) =~= views(parts@).take(i as int).push(parts@[i as int]@));
        i = i + 1;
        assert(views(out@) =~= views(parts@).take(i as int).map_values(
            |n: Seq<char>| neutralized(n),
        ));
    }
    assert(views(parts@).take(i as int) =~= views(parts@));
    rebuilt_vec(&v, &out)
}

/// Restore every neutralised component of a path:
/// `dot.hidden/dot.secret/file.txt` → `.hidden/.secret/file.txt`.
pub fn restore_path(path: &str) -> (r: String)
    ensures
        r@ == restored_path(path@),
{
    let v = chars_of(path);
    let parts = named_components_vec(&v);
    let mut out: Vec<Vec<char>> = Vec::new();
    let mut i: usize = 0;
    while i < parts.len()
        invariant
            i <= parts.len(),
            views(parts@) == named_components(v@),
            views(out@) =~= views(parts@).take(i as int).map_values(|n: Seq<char>| restored(n)),
        decreases parts.len() - i,
    {
        let c = restored_vec(&parts[i]);
        let ghost old_out = views(out@);
        assert(views(parts@)[i as int] == parts@[i as int]@);
        out.push(c);
        assert(views(out@) =~= old_out.push(c@));
        assert(views(parts@).take(i + 1) =~= views(parts@).take(i as int).push(parts@[i as int]@));
        i = i + 1;
        assert(views(out@) =~= views(parts@).take(i as int).map_values(|n: Seq<char>| restored(n)));
    }
    assert(views(parts@).take(i as int) =~= views(parts@));
    rebuilt_vec(&v, &out)
}

/// Restoring a neutralised name gives the name back, unless the name already
/// looked neutralised (`dot.…`), in which case neutralising kept it as it was.
pub proof fn lemma_restore_neutralized(n: Seq<char>)
    requires
        !starts_with(n, seq!['d', 'o', 't', '.']),
    ensures
        restored(neutralized(n)) == n,
{
    let m = neutralized(n);
    if n == seq!['.'] || n == seq!['.', '.'] {
        assert(!starts_with(m, seq!['d', 'o', 't', '.']));
    } else if n.len() > 1 && n[0] == '.' {
        assert(m.subrange(0, 4) =~= seq!['d', 'o', 't', '.']);
        assert(seq!['.'] + m.skip(4) =~= n);
    } else {
        if n.len() >= 4 {
            assert(n.subrange(0, 4)[0] == n[0]);
        }
    }
}

/// Neutralising a restored name gives the name back, for every name that
/// restoring changes except `dot..`.
pub proof fn lemma_neutralize_restored(n: Seq<char>)
    requires
        starts_with(n, seq!['d', 'o', 't', '.']),
        n.len() > 4,
        n != seq!['d', 'o', 't', '.', '.'],
    ensures
        neutralized(restored(n)) == n,
{
    let m = restored(n);
    assert(m[0] == '.');
    assert(m.len() > 1);
    assert(n.subrange(0, 4) =~= seq!['d', 'o', 't', '.']);
    if m == seq!['.', '.'] {
        assert(n =~= seq!['d', 'o', 't', '.', '.']);
    }
    assert(m != seq!['.']);
    assert(!starts_with(m, seq!['d', 'o', 't', '.'])) by {
        if m.len() >= 4 {
            assert(m.subrange(0, 4)[0] == '.');
        }
    }
    assert(seq!['d', 'o', 't'] + m =~= n);
}

} // verus!
