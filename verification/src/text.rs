//! Character-level text handling shared by the parsers of this crate.
//!
//! Text is modelled as `Seq<char>` (the view of `str` and `String`); the
//! executable helpers work on `Vec<char>` and convert at the edges.
use vstd::prelude::*;

verus! {

broadcast use vstd::string::group_string_axioms;

// ------------------------------------------------------------------
// Specifications
// ------------------------------------------------------------------

/// Unicode `White_Space`, as `char::is_whitespace` defines it.
pub open spec fn is_ws(c: char) -> bool {
    let u = c as u32;
    ||| (0x09 <= u && u <= 0x0d)
    ||| u == 0x20
    ||| u == 0x85
    ||| u == 0xa0
    ||| u == 0x1680
    ||| (0x2000 <= u && u <= 0x200a)
    ||| u == 0x2028
    ||| u == 0x2029
    ||| u == 0x202f
    ||| u == 0x205f
    ||| u == 0x3000
}

/// `s` without its leading whitespace.
pub open spec fn trim_start(s: Seq<char>) -> Seq<char>
    decreases s.len(),
{
    if s.len() > 0 && is_ws(s[0]) {
        trim_start(s.drop_first())
    } else {
        s
    }
}

/// `s` without its trailing whitespace.
pub open spec fn trim_end(s: Seq<char>) -> Seq<char>
    decreases s.len(),
{
    if s.len() > 0 && is_ws(s.last()) {
        trim_end(s.drop_last())
    } else {
        s
    }
}

/// `s` without leading and trailing whitespace (`str::trim`).
pub open spec fn trim(s: Seq<char>) -> Seq<char> {
    trim_end(trim_start(s))
}

/// `p` is a prefix of `s`.
pub open spec fn starts_with(s: Seq<char>, p: Seq<char>) -> bool {
    p.len() <= s.len() && s.subrange(0, p.len() as int) == p
}

/// `p` is a suffix of `s`.
pub open spec fn ends_with(s: Seq<char>, p: Seq<char>) -> bool {
    p.len() <= s.len() && s.subrange(s.len() - p.len(), s.len() as int) == p
}

/// `p` occurs in `s` at position `i`.
pub open spec fn occurs_at(s: Seq<char>, p: Seq<char>, i: int) -> bool {
    0 <= i && i + p.len() <= s.len() && s.subrange(i, i + p.len()) == p
}

/// First position at or after `i` where `p` occurs in `s`.
pub open spec fn find_from(s: Seq<char>, p: Seq<char>, i: int) -> Option<int>
    decreases s.len() + 1 - i,
{
    if i < 0 || i + p.len() > s.len() {
        None
    } else if occurs_at(s, p, i) {
        Some(i)
    } else {
        find_from(s, p, i + 1)
    }
}

/// First position where `p` occurs in `s` (`str::find`).
pub open spec fn find(s: Seq<char>, p: Seq<char>) -> Option<int> {
    find_from(s, p, 0)
}

/// `p` occurs somewhere in `s` (`str::contains`).
pub open spec fn contains(s: Seq<char>, p: Seq<char>) -> bool {
    find(s, p) is Some
}

/// Last position of the character `c` in `s` (`str::rfind` on a char).
pub open spec fn rfind_char(s: Seq<char>, c: char) -> Option<int>
    decreases s.len(),
{
    if s.len() == 0 {
        None
    } else if s.last() == c {
        Some(s.len() - 1)
    } else {
        rfind_char(s.drop_last(), c)
    }
}

/// The last position of `c` lies in `s` and holds `c`.
pub proof fn lemma_rfind_char_bounds(s: Seq<char>, c: char)
    ensures
        rfind_char(s, c) matches Some(i) ==> 0 <= i < s.len() && s[i] == c,
    decreases s.len(),
{
    if s.len() > 0 && s.last() != c {
        lemma_rfind_char_bounds(s.drop_last(), c);
    }
}

/// The last position of `c` is the last one: no `c` follows it, and none
/// occurs at all when there is no last position.
pub proof fn lemma_rfind_char_last(s: Seq<char>, c: char)
    ensures
        rfind_char(s, c) matches Some(i) ==> forall|j: int| i < j < s.len() ==> s[j] != c,
        rfind_char(s, c) is None ==> forall|j: int| 0 <= j < s.len() ==> s[j] != c,
    decreases s.len(),
{
    if s.len() > 0 && s.last() != c {
        let t = s.drop_last();
        lemma_rfind_char_last(t, c);
        lemma_rfind_char_bounds(t, c);
        match rfind_char(t, c) {
            Some(i) => {
                assert forall|j: int| i < j < s.len() implies s[j] != c by {
                    if j < s.len() - 1 {
                        assert(s[j] == t[j]);
                    }
                }
            },
            None => {
                assert forall|j: int| 0 <= j < s.len() implies s[j] != c by {
                    if j < s.len() - 1 {
                        assert(s[j] == t[j]);
                    }
                }
            },
        }
    }
}

/// Appending text without `c` keeps the last position of `c`.
pub proof fn lemma_rfind_char_append(s: Seq<char>, t: Seq<char>, c: char)
    requires
        forall|j: int| 0 <= j < t.len() ==> t[j] != c,
    ensures
        rfind_char(s + t, c) == rfind_char(s, c),
    decreases t.len(),
{
    if t.len() > 0 {
        assert((s + t).drop_last() =~= s + t.drop_last());
        assert((s + t).last() == t.last());
        lemma_rfind_char_append(s, t.drop_last(), c);
    } else {
        assert(s + t =~= s);
    }
}

/// After pushing `c`, its last position is the end.
pub proof fn lemma_rfind_char_push(s: Seq<char>, c: char)
    ensures
        rfind_char(s.push(c), c) == Some(s.len() as int),
{
    assert(s.push(c).last() == c);
}

/// First position of the character `c` in `s`.
pub open spec fn find_char(s: Seq<char>, c: char) -> Option<int> {
    find(s, seq![c])
}

/// The texts held by a vector of char vectors.
pub open spec fn views(v: Seq<Vec<char>>) -> Seq<Seq<char>> {
    v.map_values(|x: Vec<char>| x@)
}

/// `s` with a single trailing `'\r'` removed.
pub open spec fn strip_cr(s: Seq<char>) -> Seq<char> {
    if s.len() > 0 && s.last() == '\r' {
        s.drop_last()
    } else {
        s
    }
}

/// The lines of `s`, as `str::lines` yields them: split at `'\n'`, a
/// trailing `'\r'` removed from each terminated line, no empty line after a
/// final `'\n'`.
pub open spec fn lines(s: Seq<char>) -> Seq<Seq<char>>
    decreases s.len(),
{
    if s.len() == 0 {
        seq![]
    } else {
        match find_char(s, '\n') {
            None => seq![s],
            Some(i) => {
                if 0 <= i < s.len() {
                    seq![strip_cr(s.take(i))] + lines(s.skip(i + 1))
                } else {
                    seq![]
                }
            },
        }
    }
}

/// The pieces of `s` between occurrences of `c` (`str::split` on a char).
pub open spec fn split(s: Seq<char>, c: char) -> Seq<Seq<char>>
    decreases s.len(),
{
    match find_char(s, c) {
        None => seq![s],
        Some(i) => {
            if 0 <= i < s.len() {
                seq![s.take(i)] + split(s.skip(i + 1), c)
            } else {
                seq![s]
            }
        },
    }
}

/// `parts` joined with `sep` between neighbours (`[..].join(sep)`).
pub open spec fn join(parts: Seq<Seq<char>>, sep: Seq<char>) -> Seq<char>
    decreases parts.len(),
{
    if parts.len() == 0 {
        seq![]
    } else if parts.len() == 1 {
        parts[0]
    } else {
        join(parts.drop_last(), sep) + sep + parts.last()
    }
}

/// Every element of `parts` followed by `'\n'`.
pub open spec fn concat_lines(parts: Seq<Seq<char>>) -> Seq<char>
    decreases parts.len(),
{
    if parts.len() == 0 {
        seq![]
    } else {
        concat_lines(parts.drop_last()) + parts.last() + seq!['\n']
    }
}

/// `s` with every `from` replaced by `to`.
pub open spec fn replace_char(s: Seq<char>, from: char, to: char) -> Seq<char> {
    s.map_values(|c: char| if c == from { to } else { c })
}

/// The char is an ASCII hexadecimal digit.
pub open spec fn is_hex_digit(c: char) -> bool {
    ('0' <= c && c <= '9') || ('a' <= c && c <= 'f') || ('A' <= c && c <= 'F')
}

/// ASCII lower-casing of one char.
pub open spec fn ascii_lower(c: char) -> char {
    if 'A' <= c && c <= 'Z' {
        ((c as u32) + 32) as char
    } else {
        c
    }
}

/// ASCII lower-casing of a text.
pub open spec fn ascii_lower_seq(s: Seq<char>) -> Seq<char> {
    s.map_values(|c: char| ascii_lower(c))
}

// ------------------------------------------------------------------
// Lemmas
// ------------------------------------------------------------------

/// `find_from` returns a real, first occurrence.
pub proof fn lemma_find_from(s: Seq<char>, p: Seq<char>, i: int)
    requires
        0 <= i,
    ensures
        match find_from(s, p, i) {
            Some(k) => i <= k && occurs_at(s, p, k) && forall|j: int|
                i <= j < k ==> !occurs_at(s, p, j),
            None => forall|j: int| i <= j ==> !occurs_at(s, p, j),
        },
    decreases s.len() + 1 - i,
{
    if i + p.len() > s.len() {
    } else if occurs_at(s, p, i) {
    } else {
        lemma_find_from(s, p, i + 1);
    }
}

/// A single char occurs at `k` exactly when it stands there.
pub proof fn lemma_occurs_char(s: Seq<char>, c: char, k: int)
    ensures
        occurs_at(s, seq![c], k) <==> (0 <= k < s.len() && s[k] == c),
{
    if 0 <= k < s.len() && s[k] == c {
        assert(s.subrange(k, k + 1) =~= seq![c]);
    }
    if occurs_at(s, seq![c], k) {
        assert(s.subrange(k, k + 1)[0] == s[k]);
    }
}

/// `find_char` is the first position of the char.
pub proof fn lemma_find_char(s: Seq<char>, c: char)
    ensures
        match find_char(s, c) {
            Some(k) => 0 <= k < s.len() && s[k] == c && forall|j: int| 0 <= j < k ==> s[j] != c,
            None => forall|j: int| 0 <= j < s.len() ==> s[j] != c,
        },
{
    lemma_find_from(s, seq![c], 0);
    match find_char(s, c) {
        Some(k) => {
            lemma_occurs_char(s, c, k);
            assert forall|j: int| 0 <= j < k implies s[j] != c by {
                lemma_occurs_char(s, c, j);
            }
        },
        None => {
            assert forall|j: int| 0 <= j < s.len() implies s[j] != c by {
                lemma_occurs_char(s, c, j);
            }
        },
    }
}

/// The first position of a char, characterised by its content.
pub proof fn lemma_find_char_is(s: Seq<char>, c: char, k: Option<int>)
    requires
        match k {
            Some(k) => 0 <= k < s.len() && s[k] == c && forall|j: int| 0 <= j < k ==> s[j] != c,
            None => forall|j: int| 0 <= j < s.len() ==> s[j] != c,
        },
    ensures
        find_char(s, c) == k,
{
    lemma_find_char(s, c);
}

/// Appending to a join.
pub proof fn lemma_join_push(parts: Seq<Seq<char>>, sep: Seq<char>, x: Seq<char>)
    requires
        parts.len() > 0,
    ensures
        join(parts.push(x), sep) == join(parts, sep) + sep + x,
{
    assert(parts.push(x).drop_last() =~= parts);
}

/// Appending to `concat_lines`.
pub proof fn lemma_concat_lines_push(parts: Seq<Seq<char>>, x: Seq<char>)
    ensures
        concat_lines(parts.push(x)) == concat_lines(parts) + x + seq!['\n'],
{
    assert(parts.push(x).drop_last() =~= parts);
}

// ------------------------------------------------------------------
// Executable helpers
// ------------------------------------------------------------------

/// The characters of `s`, in order.
pub fn chars_of(s: &str) -> (r: Vec<char>)
    ensures
        r@ == s@,
{
    let mut r: Vec<char> = Vec::new();
    for c in it: s.chars()
        invariant
            r@ == it.seq().take(it.index() as int),
    {
        r.push(c);
    }
    r
}

/// `String::push`.
#[verifier::external_body]
fn push_char(s: &mut String, c: char)
    ensures
        final(s)@ == old(s)@.push(c),
{
    s.push(c);
}

/// The text made of the chars of `v`.
pub fn string_of(v: &Vec<char>) -> (r: String)
    ensures
        r@ == v@,
{
    let mut r = String::new();
    let mut i: usize = 0;
    while i < v.len()
        invariant
            i <= v.len(),
            r@ == v@.take(i as int),
        decreases v.len() - i,
    {
        push_char(&mut r, v[i]);
        i = i + 1;
        assert(r@ =~= v@.take(i as int));
    }
    assert(v@.take(v.len() as int) =~= v@);
    r
}

/// The chars `v[i..j]`.
pub fn slice(v: &Vec<char>, i: usize, j: usize) -> (r: Vec<char>)
    requires
        i <= j <= v.len(),
    ensures
        r@ == v@.subrange(i as int, j as int),
{
    let mut r: Vec<char> = Vec::new();
    let mut k: usize = i;
    while k < j
        invariant
            i <= k <= j <= v.len(),
            r@ == v@.subrange(i as int, k as int),
        decreases j - k,
    {
        r.push(v[k]);
        k = k + 1;
        assert(r@ =~= v@.subrange(i as int, k as int));
    }
    r
}

/// `v` followed by `w`.
pub fn concat(v: &Vec<char>, w: &Vec<char>) -> (r: Vec<char>)
    ensures
        r@ == v@ + w@,
{
    let mut r = v.clone();
    r.extend_from_slice(w.as_slice());
    assert(r@ =~= v@ + w@);
    r
}

/// Appends `w` to `r`.
pub fn push_all(r: &mut Vec<char>, w: &Vec<char>)
    ensures
        final(r)@ == old(r)@ + w@,
{
    r.extend_from_slice(w.as_slice());
}

/// Appends the chars of `s` to `r`.
pub fn push_str(r: &mut Vec<char>, s: &str)
    ensures
        final(r)@ == old(r)@ + s@,
{
    let w = chars_of(s);
    r.extend_from_slice(w.as_slice());
}

/// `char::is_whitespace`.
pub fn is_ws_char(c: char) -> (b: bool)
    ensures
        b == is_ws(c),
{
    let u = c as u32;
    (0x09 <= u && u <= 0x0d) || u == 0x20 || u == 0x85 || u == 0xa0 || u == 0x1680 || (0x2000
        <= u && u <= 0x200a) || u == 0x2028 || u == 0x2029 || u == 0x202f || u == 0x205f || u
        == 0x3000
}

/// Position of the first char of `v` that is not whitespace (or its length).
pub fn trim_start_index(v: &Vec<char>) -> (k: usize)
    ensures
        k <= v.len(),
        trim_start(v@) == v@.skip(k as int),
{
    let mut k: usize = 0;
    assert(v@.skip(0) =~= v@);
    while k < v.len() && is_ws_char(v[k])
        invariant
            k <= v.len(),
            trim_start(v@) == trim_start(v@.skip(k as int)),
        decreases v.len() - k,
    {
        assert(v@.skip(k as int).drop_first() =~= v@.skip(k + 1));
        k = k + 1;
    }
    k
}

/// One past the last char of `v[..j]` that is not whitespace (or 0).
pub fn trim_end_index(v: &Vec<char>, start: usize, j: usize) -> (k: usize)
    requires
        start <= j <= v.len(),
    ensures
        start <= k <= j,
        trim_end(v@.subrange(start as int, j as int)) == v@.subrange(start as int, k as int),
{
    let mut k: usize = j;
    while k > start && is_ws_char(v[k - 1])
        invariant
            start <= k <= j <= v.len(),
            trim_end(v@.subrange(start as int, j as int)) == trim_end(
                v@.subrange(start as int, k as int),
            ),
        decreases k,
    {
        assert(v@.subrange(start as int, k as int).drop_last() =~= v@.subrange(
            start as int,
            k - 1,
        ));
        k = k - 1;
    }
    k
}

/// `str::trim`.
pub fn trim_vec(v: &Vec<char>) -> (r: Vec<char>)
    ensures
        r@ == trim(v@),
{
    let a = trim_start_index(v);
    assert(v@.skip(a as int) =~= v@.subrange(a as int, v.len() as int));
    let b = trim_end_index(v, a, v.len());
    slice(v, a, b)
}

/// `str::trim_end`.
pub fn trim_end_vec(v: &Vec<char>) -> (r: Vec<char>)
    ensures
        r@ == trim_end(v@),
{
    let b = trim_end_index(v, 0, v.len());
    assert(v@.subrange(0, v.len() as int) =~= v@);
    slice(v, 0, b)
}

/// `p` occurs in `v` at `i`.
pub fn occurs_at_exec(v: &Vec<char>, p: &Vec<char>, i: usize) -> (b: bool)
    ensures
        b == occurs_at(v@, p@, i as int),
{
    if i > v.len() || p.len() > v.len() - i {
        return false;
    }
    let mut k: usize = 0;
    while k < p.len()
        invariant
            k <= p.len(),
            i + p.len() <= v.len(),
            forall|m: int| 0 <= m < k ==> v@[i + m] == p@[m],
        decreases p.len() - k,
    {
        if v[i + k] != p[k] {
            assert(v@.subrange(i as int, i + p.len())[k as int] != p@[k as int]);
            return false;
        }
        k = k + 1;
    }
    assert(v@.subrange(i as int, i + p.len()) =~= p@);
    true
}

/// `str::starts_with`.
pub fn starts_with_vec(v: &Vec<char>, p: &Vec<char>) -> (b: bool)
    ensures
        b == starts_with(v@, p@),
{
    occurs_at_exec(v, p, 0)
}

/// `str::ends_with`.
pub fn ends_with_vec(v: &Vec<char>, p: &Vec<char>) -> (b: bool)
    ensures
        b == ends_with(v@, p@),
{
    if p.len() > v.len() {
        return false;
    }
    occurs_at_exec(v, p, v.len() - p.len())
}

/// `str::starts_with` against a literal.
pub fn starts_with_str(v: &Vec<char>, p: &str) -> (b: bool)
    ensures
        b == starts_with(v@, p@),
{
    let pv = chars_of(p);
    starts_with_vec(v, &pv)
}

/// `str::ends_with` against a literal.
pub fn ends_with_str(v: &Vec<char>, p: &str) -> (b: bool)
    ensures
        b == ends_with(v@, p@),
{
    let pv = chars_of(p);
    ends_with_vec(v, &pv)
}

/// Equality of a text with a literal.
pub fn eq_str(v: &Vec<char>, p: &str) -> (b: bool)
    ensures
        b == (v@ == p@),
{
    let pv = chars_of(p);
    eq_vec(v, &pv)
}

/// Equality of two texts.
pub fn eq_vec(v: &Vec<char>, w: &Vec<char>) -> (b: bool)
    ensures
        b == (v@ == w@),
{
    if v.len() != w.len() {
        return false;
    }
    let b = occurs_at_exec(v, w, 0);
    if b {
        assert(v@ =~= v@.subrange(0, w.len() as int));
    } else {
        proof {
            if v@ == w@ {
                assert(v@.subrange(0, w.len() as int) =~= w@);
            }
        }
    }
    b
}

/// `str::find` starting at `from`.
pub fn find_from_exec(v: &Vec<char>, p: &Vec<char>, from: usize) -> (r: Option<usize>)
    ensures
        match r {
            Some(k) => find_from(v@, p@, from as int) == Some(k as int),
            None => find_from(v@, p@, from as int) is None,
        },
{
    let mut i: usize = from;
    loop
        invariant
            from <= i,
            find_from(v@, p@, from as int) == find_from(v@, p@, i as int),
        decreases v.len() + 1 - i,
    {
        if i > v.len() || p.len() > v.len() - i {
            return None;
        }
        if occurs_at_exec(v, p, i) {
            return Some(i);
        }
        proof {
            if i == v.len() {
                assert(v@.subrange(i as int, i as int) =~= p@);
            }
        }
        i = i + 1;
    }
}

/// `str::find`.
pub fn find_vec(v: &Vec<char>, p: &Vec<char>) -> (r: Option<usize>)
    ensures
        match r {
            Some(k) => find(v@, p@) == Some(k as int),
            None => find(v@, p@) is None,
        },
{
    find_from_exec(v, p, 0)
}

/// `str::find` of a literal.
pub fn find_str(v: &Vec<char>, p: &str) -> (r: Option<usize>)
    ensures
        match r {
            Some(k) => find(v@, p@) == Some(k as int),
            None => find(v@, p@) is None,
        },
{
    let pv = chars_of(p);
    find_vec(v, &pv)
}

/// First position at or after `from` holding `c`.
pub fn find_char_from(v: &Vec<char>, c: char, from: usize) -> (r: Option<usize>)
    requires
        from <= v.len(),
    ensures
        match r {
            Some(k) => from <= k < v.len() && v@[k as int] == c && forall|j: int|
                from <= j < k ==> v@[j] != c,
            None => forall|j: int| from <= j < v.len() ==> v@[j] != c,
        },
{
    let mut i: usize = from;
    while i < v.len()
        invariant
            from <= i <= v.len(),
            forall|j: int| from <= j < i ==> v@[j] != c,
        decreases v.len() - i,
    {
        if v[i] == c {
            return Some(i);
        }
        i = i + 1;
    }
    None
}

/// Last position holding `c` (`str::rfind` on a char).
pub fn rfind_char_exec(v: &Vec<char>, c: char) -> (r: Option<usize>)
    ensures
        match r {
            Some(k) => rfind_char(v@, c) == Some(k as int) && k < v.len(),
            None => rfind_char(v@, c) is None,
        },
{
    let mut i: usize = v.len();
    assert(v@.take(v.len() as int) =~= v@);
    while i > 0
        invariant
            i <= v.len(),
            rfind_char(v@, c) == rfind_char(v@.take(i as int), c),
        decreases i,
    {
        assert(v@.take(i as int).drop_last() =~= v@.take(i - 1));
        if v[i - 1] == c {
            return Some(i - 1);
        }
        i = i - 1;
    }
    None
}

/// `str::lines`.
pub fn split_lines(v: &Vec<char>) -> (r: Vec<Vec<char>>)
    ensures
        views(r@) == lines(v@),
{
    let mut r: Vec<Vec<char>> = Vec::new();
    let mut pos: usize = 0;
    assert(v@.skip(0) =~= v@);
    while pos < v.len()
        invariant
            pos <= v.len(),
            lines(v@) == views(r@) + lines(v@.skip(pos as int)),
        decreases v.len() - pos,
    {
        let ghost rest = v@.skip(pos as int);
        let nl = find_char_from(v, '\n', pos);
        match nl {
            Some(k) => {
                proof {
                    lemma_find_char_is(rest, '\n', Some(k - pos));
                }
                let mut end = k;
                if end > pos && v[end - 1] == '\r' {
                    end = end - 1;
                }
                let line = slice(v, pos, end);
                assert(line@ == strip_cr(rest.take(k - pos)));
                assert(rest.skip(k - pos + 1) =~= v@.skip(k + 1));
                let ghost old_r = views(r@);
                r.push(line);
                assert(views(r@) =~= old_r.push(line@));
                assert(views(r@) + lines(v@.skip(k + 1)) =~= old_r + (seq![line@] + lines(
                    v@.skip(k + 1),
                )));
                pos = k + 1;
            },
            None => {
                proof {
                    lemma_find_char_is(rest, '\n', None);
                }
                let line = slice(v, pos, v.len());
                assert(line@ =~= rest);
                let ghost old_r = views(r@);
                r.push(line);
                assert(views(r@) =~= old_r.push(line@));
                assert(v@.skip(v.len() as int) =~= Seq::<char>::empty());
                assert(views(r@) + lines(v@.skip(v.len() as int)) =~= old_r + seq![rest]);
                pos = v.len();
            },
        }
    }
    assert(v@.skip(pos as int) =~= Seq::<char>::empty());
    assert(views(r@) + lines(v@.skip(pos as int)) =~= views(r@));
    r
}

/// `[..].join(sep)`.
pub fn join_vec(parts: &Vec<Vec<char>>, sep: &Vec<char>) -> (r: Vec<char>)
    ensures
        r@ == join(views(parts@), sep@),
{
    let mut r: Vec<char> = Vec::new();
    if parts.len() == 0 {
        return r;
    }
    r = parts[0].clone();
    assert(views(parts@).take(1) =~= seq![views(parts@)[0]]);
    let mut i: usize = 1;
    while i < parts.len()
        invariant
            1 <= i <= parts.len(),
            r@ == join(views(parts@).take(i as int), sep@),
        decreases parts.len() - i,
    {
        push_all(&mut r, sep);
        push_all(&mut r, &parts[i]);
        proof {
            lemma_join_push(views(parts@).take(i as int), sep@, views(parts@)[i as int]);
            assert(views(parts@).take(i as int).push(views(parts@)[i as int])
                =~= views(parts@).take(i + 1));
        }
        i = i + 1;
    }
    assert(views(parts@).take(i as int) =~= views(parts@));
    r
}

/// `[..].join("\n")`.
pub fn join_newline(parts: &Vec<Vec<char>>) -> (r: Vec<char>)
    ensures
        r@ == join(views(parts@), seq!['\n']),
{
    let mut sep: Vec<char> = Vec::new();
    sep.push('\n');
    assert(sep@ =~= seq!['\n']);
    join_vec(parts, &sep)
}

/// Every part followed by `'\n'`.
pub fn concat_lines_exec(parts: &Vec<Vec<char>>) -> (r: Vec<char>)
    ensures
        r@ == concat_lines(views(parts@)),
{
    let mut r: Vec<char> = Vec::new();
    let mut i: usize = 0;
    assert(views(parts@).take(0) =~= Seq::<Seq<char>>::empty());
    while i < parts.len()
        invariant
            i <= parts.len(),
            r@ == concat_lines(views(parts@).take(i as int)),
        decreases parts.len() - i,
    {
        push_all(&mut r, &parts[i]);
        r.push('\n');
        proof {
            lemma_concat_lines_push(views(parts@).take(i as int), views(parts@)[i as int]);
            assert(views(parts@).take(i as int).push(views(parts@)[i as int])
                =~= views(parts@).take(i + 1));
        }
        i = i + 1;
    }
    assert(views(parts@).take(i as int) =~= views(parts@));
    r
}

/// `is_ascii_hexdigit`.
pub fn is_hex_digit_exec(c: char) -> (b: bool)
    ensures
        b == is_hex_digit(c),
{
    ('0' <= c && c <= '9') || ('a' <= c && c <= 'f') || ('A' <= c && c <= 'F')
}

/// `str::replace` of one char by another.
pub fn replace_char_exec(v: &Vec<char>, from: char, to: char) -> (r: Vec<char>)
    ensures
        r@ == replace_char(v@, from, to),
{
    let mut r: Vec<char> = Vec::new();
    let mut i: usize = 0;
    while i < v.len()
        invariant
            i <= v.len(),
            r@ == replace_char(v@.take(i as int), from, to),
        decreases v.len() - i,
    {
        if v[i] == from {
            r.push(to);
        } else {
            r.push(v[i]);
        }
        i = i + 1;
        assert(r@ =~= replace_char(v@.take(i as int), from, to));
    }
    assert(v@.take(i as int) =~= v@);
    r
}

/// `str::split` on a char.
pub fn split_char(v: &Vec<char>, c: char) -> (r: Vec<Vec<char>>)
    ensures
        views(r@) == split(v@, c),
        r@.len() >= 1,
{
    let mut r: Vec<Vec<char>> = Vec::new();
    let mut pos: usize = 0;
    assert(v@.skip(0) =~= v@);
    loop
        invariant
            pos <= v.len(),
            split(v@, c) == views(r@) + split(v@.skip(pos as int), c),
        decreases v.len() - pos,
    {
        let ghost rest = v@.skip(pos as int);
        let ghost old_r = views(r@);
        match find_char_from(v, c, pos) {
            Some(k) => {
                proof {
                    lemma_find_char_is(rest, c, Some(k - pos));
                }
                let piece = slice(v, pos, k);
                assert(piece@ =~= rest.take(k - pos));
                assert(rest.skip(k - pos + 1) =~= v@.skip(k + 1));
                r.push(piece);
                assert(views(r@) =~= old_r.push(piece@));
                assert(views(r@) + split(v@.skip(k + 1), c) =~= old_r + (seq![piece@] + split(
                    v@.skip(k + 1),
                    c,
                )));
                pos = k + 1;
            },
            None => {
                proof {
                    lemma_find_char_is(rest, c, None);
                }
                let piece = slice(v, pos, v.len());
                assert(piece@ =~= rest);
                r.push(piece);
                assert(views(r@) =~= old_r.push(piece@));
                assert(views(r@) =~= old_r + split(rest, c));
                return r;
            },
        }
    }
}

/// Joining the pieces of a split gives the text back.
pub proof fn lemma_join_split(s: Seq<char>, c: char)
    ensures
        join(split(s, c), seq![c]) == s,
    decreases s.len(),
{
    lemma_find_char(s, c);
    match find_char(s, c) {
        None => {},
        Some(i) => {
            let rest = s.skip(i + 1);
            lemma_join_split(rest, c);
            lemma_join_cons(s.take(i), split(rest, c), seq![c]);
            assert(s.take(i) + seq![c] + rest =~= s);
        },
    }
}

/// Joining after putting a part in front.
pub proof fn lemma_join_cons(x: Seq<char>, parts: Seq<Seq<char>>, sep: Seq<char>)
    requires
        parts.len() > 0,
    ensures
        join(seq![x] + parts, sep) == x + sep + join(parts, sep),
    decreases parts.len(),
{
    let xs = seq![x] + parts;
    assert(xs.len() >= 2);
    assert(join(xs, sep) == join(xs.drop_last(), sep) + sep + xs.last());
    if parts.len() == 1 {
        assert(xs.drop_last() =~= seq![x]);
        assert(join(seq![x], sep) == x);
        assert(xs.last() == parts[0]);
        assert(join(parts, sep) == parts[0]);
    } else {
        lemma_join_cons(x, parts.drop_last(), sep);
        assert(xs.drop_last() =~= seq![x] + parts.drop_last());
        assert(join(parts, sep) == join(parts.drop_last(), sep) + sep + parts.last());
        assert(x + sep + join(parts.drop_last(), sep) + sep + parts.last() =~= x + sep + (join(
            parts.drop_last(),
            sep,
        ) + sep + parts.last()));
    }
}

/// Lexicographic order of texts by code point (the order of `String`).
pub open spec fn lex_lt(a: Seq<char>, b: Seq<char>) -> bool
    decreases a.len(),
{
    if a.len() == 0 {
        b.len() > 0
    } else if b.len() == 0 {
        false
    } else if a[0] < b[0] {
        true
    } else if a[0] == b[0] {
        lex_lt(a.drop_first(), b.drop_first())
    } else {
        false
    }
}

/// `lex_lt` is irreflexive and total.
pub proof fn lemma_lex_total(a: Seq<char>, b: Seq<char>)
    ensures
        !lex_lt(a, a),
        a != b ==> (lex_lt(a, b) || lex_lt(b, a)),
        !(lex_lt(a, b) && lex_lt(b, a)),
    decreases a.len(),
{
    if a.len() > 0 {
        lemma_lex_total(a.drop_first(), a.drop_first());
    }
    if a.len() > 0 && b.len() > 0 {
        lemma_lex_total(a.drop_first(), b.drop_first());
        if a != b && a[0] == b[0] {
            assert(a.drop_first() != b.drop_first()) by {
                if a.drop_first() == b.drop_first() {
                    assert(a =~= seq![a[0]] + a.drop_first());
                    assert(b =~= seq![b[0]] + b.drop_first());
                }
            }
        }
    } else if a.len() == 0 && b.len() == 0 {
        assert(a =~= b);
    }
}

/// `lex_lt` is transitive.
pub proof fn lemma_lex_trans(a: Seq<char>, b: Seq<char>, c: Seq<char>)
    requires
        lex_lt(a, b),
        lex_lt(b, c),
    ensures
        lex_lt(a, c),
    decreases a.len(),
{
    if a.len() > 0 && b.len() > 0 && c.len() > 0 {
        if a[0] == b[0] && b[0] == c[0] {
            lemma_lex_trans(a.drop_first(), b.drop_first(), c.drop_first());
        }
    }
}

/// Lexicographic comparison of two texts.
pub fn lex_lt_exec(a: &Vec<char>, b: &Vec<char>) -> (r: bool)
    ensures
        r == lex_lt(a@, b@),
{
    let mut i: usize = 0;
    assert(a@.skip(0) =~= a@);
    assert(b@.skip(0) =~= b@);
    while i < a.len() && i < b.len() && a[i] == b[i]
        invariant
            i <= a.len(),
            i <= b.len(),
            lex_lt(a@, b@) == lex_lt(a@.skip(i as int), b@.skip(i as int)),
        decreases a.len() - i,
    {
        assert(a@.skip(i as int).drop_first() =~= a@.skip(i + 1));
        assert(b@.skip(i as int).drop_first() =~= b@.skip(i + 1));
        i = i + 1;
    }
    if i == a.len() {
        i < b.len()
    } else if i == b.len() {
        false
    } else {
        a[i] < b[i]
    }
}

/// Strictly increasing in `lex_lt`: sorted and free of duplicates.
pub open spec fn sorted_unique(s: Seq<Seq<char>>) -> bool {
    forall|i: int, j: int| 0 <= i < j < s.len() ==> lex_lt(#[trigger] s[i], #[trigger] s[j])
}

/// First index at or after `i` of a line starting with `p`.
pub open spec fn first_starting_from(ls: Seq<Seq<char>>, p: Seq<char>, i: int) -> Option<int>
    decreases ls.len() - i,
{
    if i < 0 || i >= ls.len() {
        None
    } else if starts_with(ls[i], p) {
        Some(i)
    } else {
        first_starting_from(ls, p, i + 1)
    }
}

/// First index of a line starting with `p`.
pub open spec fn first_starting(ls: Seq<Seq<char>>, p: Seq<char>) -> Option<int> {
    first_starting_from(ls, p, 0)
}

/// First index of a line starting with `p`.
pub fn first_starting_exec(ls: &Vec<Vec<char>>, p: &Vec<char>) -> (r: Option<usize>)
    ensures
        match r {
            Some(k) => first_starting(views(ls@), p@) == Some(k as int) && k < ls.len(),
            None => first_starting(views(ls@), p@) is None,
        },
{
    let mut i: usize = 0;
    while i < ls.len()
        invariant
            i <= ls.len(),
            first_starting(views(ls@), p@) == first_starting_from(views(ls@), p@, i as int),
        decreases ls.len() - i,
    {
        assert(views(ls@)[i as int] == ls@[i as int]@);
        if starts_with_vec(&ls[i], p) {
            return Some(i);
        }
        i = i + 1;
    }
    None
}

/// Last position in `lo..=hi` where `p` occurs in `s`.
pub open spec fn rfind_in(s: Seq<char>, p: Seq<char>, lo: int, hi: int) -> Option<int>
    decreases hi - lo + 1,
{
    if hi < lo {
        None
    } else if occurs_at(s, p, hi) {
        Some(hi)
    } else {
        rfind_in(s, p, lo, hi - 1)
    }
}

/// Last position at or after `lo` where `p` occurs in `s`.
pub open spec fn rfind_from(s: Seq<char>, p: Seq<char>, lo: int) -> Option<int> {
    rfind_in(s, p, lo, s.len() - p.len())
}

/// Last position at or after `lo` where `p` occurs in `v`.
pub fn rfind_from_exec(v: &Vec<char>, p: &Vec<char>, lo: usize) -> (r: Option<usize>)
    ensures
        match r {
            Some(k) => rfind_from(v@, p@, lo as int) == Some(k as int),
            None => rfind_from(v@, p@, lo as int) is None,
        },
{
    if p.len() > v.len() {
        return None;
    }
    let mut hi: usize = v.len() - p.len();
    loop
        invariant
            hi <= v.len() - p.len(),
            p.len() <= v.len(),
            rfind_from(v@, p@, lo as int) == rfind_in(v@, p@, lo as int, hi as int),
        decreases hi,
    {
        if hi < lo {
            return None;
        }
        if occurs_at_exec(v, p, hi) {
            return Some(hi);
        }
        if hi == 0 {
            assert(rfind_in(v@, p@, lo as int, -1) is None);
            return None;
        }
        hi = hi - 1;
    }
}

/// A copy of a text.
pub fn copy_vec(v: &Vec<char>) -> (r: Vec<char>)
    ensures
        r@ == v@,
{
    let r = slice(v, 0, v.len());
    assert(r@ =~= v@);
    r
}

/// `str::replace` for a non-empty pattern: every occurrence of `p`, found
/// left to right without overlap, replaced by `r`.
pub open spec fn replace_all(s: Seq<char>, p: Seq<char>, r: Seq<char>) -> Seq<char>
    recommends
        p.len() > 0,
    decreases s.len(),
{
    if s.len() == 0 || p.len() == 0 {
        s
    } else if starts_with(s, p) {
        r + replace_all(s.skip(p.len() as int), p, r)
    } else {
        seq![s[0]] + replace_all(s.skip(1), p, r)
    }
}

/// `str::replace` for a non-empty pattern.
pub fn replace_all_exec(s: &str, p: &str, r: &str) -> (out: String)
    requires
        p@.len() > 0,
    ensures
        out@ == replace_all(s@, p@, r@),
{
    let v = chars_of(s);
    let pv = chars_of(p);
    let rv = chars_of(r);
    let mut o: Vec<char> = Vec::new();
    let mut i: usize = 0;
    assert(v@.skip(0) =~= v@);
    assert(o@ + v@ =~= v@);
    assert(o@ + replace_all(v@, pv@, rv@) =~= replace_all(v@, pv@, rv@));
    while i < v.len()
        invariant
            i <= v.len(),
            v@ == s@,
            pv@ == p@,
            rv@ == r@,
            pv@.len() > 0,
            o@ + replace_all(v@.skip(i as int), pv@, rv@) == replace_all(v@, pv@, rv@),
        decreases v.len() - i,
    {
        let ghost rest = v@.skip(i as int);
        if pv.len() <= v.len() - i && occurs_at_exec(&v, &pv, i) {
            proof {
                assert(rest.take(pv@.len() as int) =~= pv@);
                assert(rest.skip(pv@.len() as int) =~= v@.skip(i + pv@.len()));
            }
            push_all(&mut o, &rv);
            i = i + pv.len();
        } else {
            proof {
                if starts_with(rest, pv@) {
                    assert(v@.subrange(i as int, i + pv@.len()) =~= rest.take(pv@.len() as int));
                }
                assert(rest.skip(1) =~= v@.skip(i + 1));
            }
            o.push(v[i]);
            i = i + 1;
        }
    }
    proof {
        assert(v@.skip(i as int) =~= Seq::<char>::empty());
        assert(o@ + Seq::<char>::empty() =~= o@);
    }
    string_of(&o)
}

/// ASCII lower-casing of one char.
pub fn ascii_lower_char(c: char) -> (r: char)
    ensures
        r == ascii_lower(c),
{
    if 'A' <= c && c <= 'Z' {
        let u = (c as u32) + 32;
        assert(0x61 <= u <= 0x7a);
        let b = u as u8;
        b as char
    } else {
        c
    }
}

/// ASCII lower-casing of a text (`str::to_ascii_lowercase`).
pub fn ascii_lower_vec(v: &Vec<char>) -> (r: Vec<char>)
    ensures
        r@ == ascii_lower_seq(v@),
{
    let mut r: Vec<char> = Vec::new();
    let mut i: usize = 0;
    while i < v.len()
        invariant
            i <= v.len(),
            r@ == ascii_lower_seq(v@.take(i as int)),
        decreases v.len() - i,
    {
        r.push(ascii_lower_char(v[i]));
        i = i + 1;
        assert(r@ =~= ascii_lower_seq(v@.take(i as int)));
    }
    assert(v@.take(i as int) =~= v@);
    r
}

/// `str::contains` on texts.
pub fn contains_vec(v: &Vec<char>, p: &Vec<char>) -> (b: bool)
    ensures
        b == contains(v@, p@),
{
    find_vec(v, p).is_some()
}

/// The text holds no newline.
pub open spec fn no_newline(x: Seq<char>) -> bool {
    forall|j: int| 0 <= j < x.len() ==> x[j] != '\n'
}

/// A line appended after a newline-terminated text becomes its last line.
pub proof fn lemma_lines_append_line(a: Seq<char>, x: Seq<char>)
    requires
        a.len() == 0 || a.last() == '\n',
        no_newline(x),
    ensures
        lines(a + x + seq!['\n']) == lines(a).push(strip_cr(x)),
    decreases a.len(),
{
    let s = a + x + seq!['\n'];
    if a.len() == 0 {
        assert(s =~= x + seq!['\n']);
        assert forall|j: int| 0 <= j < x.len() implies s[j] != '\n' by {
            assert(s[j] == x[j]);
        }
        lemma_find_char_is(s, '\n', Some(x.len() as int));
        assert(s.take(x.len() as int) =~= x);
        assert(s.skip(x.len() + 1int) =~= Seq::<char>::empty());
        assert(lines(a) =~= Seq::<Seq<char>>::empty());
        assert(lines(Seq::<char>::empty()) == Seq::<Seq<char>>::empty());
        assert(lines(s) == seq![strip_cr(s.take(x.len() as int))] + lines(s.skip(x.len() + 1int)));
        assert(lines(s) =~= seq![strip_cr(x)]);
    } else {
        lemma_find_char(a, '\n');
        let i = find_char(a, '\n').unwrap();
        assert forall|j: int| 0 <= j < i implies s[j] != '\n' by {
            assert(s[j] == a[j]);
        }
        assert(s[i] == a[i]);
        lemma_find_char_is(s, '\n', Some(i));
        let rest = a.skip(i + 1);
        assert(s.take(i) =~= a.take(i));
        assert(s.skip(i + 1) =~= rest + x + seq!['\n']);
        if rest.len() > 0 {
            assert(rest.last() == a.last());
        }
        lemma_lines_append_line(rest, x);
        assert(lines(a) == seq![strip_cr(a.take(i))] + lines(rest));
        assert(lines(s) == seq![strip_cr(a.take(i))] + lines(rest + x + seq!['\n']));
        assert(lines(s) =~= lines(a).push(strip_cr(x)));
    }
}

/// No line of a text holds a newline.
pub proof fn lemma_lines_no_newline(s: Seq<char>)
    ensures
        forall|k: int| 0 <= k < lines(s).len() ==> no_newline(#[trigger] lines(s)[k]),
    decreases s.len(),
{
    if s.len() > 0 {
        lemma_find_char(s, '\n');
        match find_char(s, '\n') {
            None => {},
            Some(i) => {
                let rest = s.skip(i + 1);
                lemma_lines_no_newline(rest);
                assert forall|k: int| 0 <= k < lines(s).len() implies no_newline(#[trigger] lines(s)[k]) by {
                    if k == 0 {
                        assert(lines(s)[0] == strip_cr(s.take(i)));
                        assert forall|j: int| 0 <= j < strip_cr(s.take(i)).len() implies strip_cr(s.take(i))[j] != '\n' by {
                            assert(strip_cr(s.take(i))[j] == s[j]);
                        }
                    } else {
                        assert(lines(s)[k] == lines(rest)[k - 1]);
                    }
                }
            },
        }
    }
}

/// Newline-terminated lines without newlines read back as themselves
/// (without a trailing carriage return).
pub proof fn lemma_lines_of_concat(ks: Seq<Seq<char>>)
    requires
        forall|k: int| 0 <= k < ks.len() ==> no_newline(#[trigger] ks[k]),
    ensures
        lines(concat_lines(ks)) == ks.map_values(|l: Seq<char>| strip_cr(l)),
    decreases ks.len(),
{
    if ks.len() == 0 {
        assert(ks.map_values(|l: Seq<char>| strip_cr(l)) =~= Seq::<Seq<char>>::empty());
    } else {
        let init = ks.drop_last();
        lemma_lines_of_concat(init);
        let a = concat_lines(init);
        if init.len() > 0 {
            assert(a.last() == '\n');
        }
        assert(no_newline(ks[ks.len() - 1]));
        lemma_lines_append_line(a, ks.last());
        assert(ks.map_values(|l: Seq<char>| strip_cr(l)) =~= init.map_values(|l: Seq<char>| strip_cr(l)).push(strip_cr(ks.last())));
    }
}

/// Non-empty lines joined by newlines and newline-terminated are their
/// concatenation as lines.
pub proof fn lemma_join_newline_concat(ks: Seq<Seq<char>>)
    requires
        ks.len() > 0,
    ensures
        join(ks, seq!['\n']) + seq!['\n'] == concat_lines(ks),
    decreases ks.len(),
{
    if ks.len() == 1 {
        assert(concat_lines(ks.drop_last()) =~= Seq::<char>::empty());
        assert(concat_lines(ks) =~= ks[0] + seq!['\n']);
    } else {
        lemma_join_newline_concat(ks.drop_last());
        assert(join(ks, seq!['\n']) + seq!['\n'] =~= (join(ks.drop_last(), seq!['\n']) + seq!['\n']) + ks.last() + seq!['\n']);
    }
}

/// Trimming ignores whitespace pushed at the end.
pub proof fn lemma_trim_push_ws(s: Seq<char>, w: char)
    requires
        is_ws(w),
    ensures
        trim(s.push(w)) == trim(s),
{
    lemma_trim_start_push(s, w);
    if trim_start(s).len() == 0 {
        assert(seq![w].drop_first() =~= Seq::<char>::empty());
        assert(seq![w][0] == w);
        assert(trim_start(Seq::<char>::empty()) == Seq::<char>::empty());
        assert(trim_start(seq![w]) == trim_start(seq![w].drop_first()));
        assert(trim_start(seq![w]) =~= Seq::<char>::empty());
    } else {
        assert(trim_start(s).push(w).drop_last() =~= trim_start(s));
    }
}

proof fn lemma_trim_start_push(s: Seq<char>, w: char)
    ensures
        trim_start(s.push(w)) == if trim_start(s).len() == 0 {
            trim_start(seq![w])
        } else {
            trim_start(s).push(w)
        },
    decreases s.len(),
{
    if s.len() == 0 {
        assert(s.push(w) =~= seq![w]);
    } else if is_ws(s[0]) {
        assert(s.push(w).drop_first() =~= s.drop_first().push(w));
        lemma_trim_start_push(s.drop_first(), w);
    } else {
        assert(s.push(w)[0] == s[0]);
    }
}

/// Trimming ignores a trailing carriage return.
pub proof fn lemma_trim_strip_cr(s: Seq<char>)
    ensures
        trim(strip_cr(s)) == trim(s),
{
    if s.len() > 0 && s.last() == '\r' {
        assert(is_ws('\r'));
        assert(s.drop_last().push('\r') =~= s);
        lemma_trim_push_ws(s.drop_last(), '\r');
    }
}

/// Terminating the last line with a newline adds no line, when that line
/// does not end in a carriage return.
pub proof fn lemma_lines_terminate(c: Seq<char>)
    requires
        c.len() > 0,
        c.last() != '\n',
        c.last() != '\r',
    ensures
        lines(c + seq!['\n']) == lines(c),
    decreases c.len(),
{
    let s = c + seq!['\n'];
    lemma_find_char(c, '\n');
    match find_char(c, '\n') {
        None => {
            assert forall|j: int| 0 <= j < c.len() implies s[j] != '\n' by {
                assert(s[j] == c[j]);
            }
            lemma_find_char_is(s, '\n', Some(c.len() as int));
            assert(s.take(c.len() as int) =~= c);
            assert(s.skip(c.len() + 1int) =~= Seq::<char>::empty());
            assert(lines(Seq::<char>::empty()) == Seq::<Seq<char>>::empty());
            assert(lines(s) =~= seq![c]);
        },
        Some(i) => {
            assert forall|j: int| 0 <= j < i implies s[j] != '\n' by {
                assert(s[j] == c[j]);
            }
            assert(s[i] == c[i]);
            lemma_find_char_is(s, '\n', Some(i));
            let rest = c.skip(i + 1);
            assert(i < c.len() - 1);
            assert(rest.last() == c.last());
            assert(s.take(i) =~= c.take(i));
            assert(s.skip(i + 1) =~= rest + seq!['\n']);
            lemma_lines_terminate(rest);
        },
    }
}

/// Concatenated lines of two lists are the concatenation of each.
pub proof fn lemma_concat_lines_append(a: Seq<Seq<char>>, b: Seq<Seq<char>>)
    ensures
        concat_lines(a + b) == concat_lines(a) + concat_lines(b),
    decreases b.len(),
{
    if b.len() == 0 {
        assert(a + b =~= a);
        assert(concat_lines(a) + concat_lines(b) =~= concat_lines(a));
    } else {
        assert((a + b).drop_last() =~= a + b.drop_last());
        assert((a + b).last() == b.last());
        lemma_concat_lines_append(a, b.drop_last());
        assert(concat_lines(a) + concat_lines(b) =~= concat_lines(a) + concat_lines(b.drop_last()) + b.last() + seq!['\n']);
    }
}

/// Trimming the end of `x + y` keeps `x` whole when `x` ends in a
/// non-space.
pub proof fn lemma_trim_end_concat(x: Seq<char>, y: Seq<char>)
    requires
        x.len() > 0,
        !is_ws(x.last()),
    ensures
        trim_end(x + y) == x + trim_end(y),
    decreases y.len(),
{
    if y.len() == 0 {
        assert(x + y =~= x);
        assert(x + trim_end(y) =~= x);
    } else {
        assert((x + y).last() == y.last());
        if is_ws(y.last()) {
            assert((x + y).drop_last() =~= x + y.drop_last());
            lemma_trim_end_concat(x, y.drop_last());
        }
    }
}

/// A text that ends its last line, followed by more text: its lines, then
/// those of the rest.
pub proof fn lemma_lines_concat(a: Seq<char>, b: Seq<char>)
    requires
        a.len() == 0 || a.last() == '\n',
    ensures
        lines(a + b) == lines(a) + lines(b),
    decreases a.len(),
{
    if a.len() == 0 {
        assert(a + b =~= b);
        assert(lines(a) =~= Seq::<Seq<char>>::empty());
        assert(lines(a) + lines(b) =~= lines(b));
    } else {
        lemma_find_char(a, '\n');
        match find_char(a, '\n') {
            None => {
                assert(a[a.len() - 1] == '\n');
            },
            Some(i) => {
                let s = a + b;
                assert forall|j: int| 0 <= j < i implies s[j] != '\n' by {
                    assert(s[j] == a[j]);
                }
                assert(s[i] == a[i]);
                lemma_find_char_is(s, '\n', Some(i));
                let rest = a.skip(i + 1);
                assert(s.take(i) =~= a.take(i));
                assert(s.skip(i + 1) =~= rest + b);
                if rest.len() > 0 {
                    assert(rest.last() == a.last());
                }
                lemma_lines_concat(rest, b);
                assert(lines(a) == seq![strip_cr(a.take(i))] + lines(rest));
                assert(lines(s) == seq![strip_cr(a.take(i))] + lines(rest + b));
                assert(lines(s) =~= lines(a) + lines(b));
            },
        }
    }
}

/// A non-empty text has a line.
pub proof fn lemma_lines_nonempty(s: Seq<char>)
    requires
        s.len() > 0,
    ensures
        lines(s).len() > 0,
{
    lemma_find_char(s, '\n');
}

/// Appending a char other than a newline extends the last line, or starts
/// one after a final newline.
pub proof fn lemma_lines_push_char(x: Seq<char>, c: char)
    requires
        c != '\n',
    ensures
        lines(x.push(c)) == if x.len() == 0 || x.last() == '\n' {
            lines(x).push(seq![c])
        } else {
            lines(x).drop_last().push(lines(x).last().push(c))
        },
    decreases x.len(),
{
    let s = x.push(c);
    lemma_find_char(x, '\n');
    match find_char(x, '\n') {
        None => {
            assert forall|j: int| 0 <= j < s.len() implies s[j] != '\n' by {
                if j < x.len() {
                    assert(s[j] == x[j]);
                }
            }
            lemma_find_char_is(s, '\n', None);
            assert(lines(s) == seq![s]);
            if x.len() == 0 {
                assert(lines(x) =~= Seq::<Seq<char>>::empty());
                assert(s =~= seq![c]);
                assert(lines(s) =~= lines(x).push(seq![c]));
            } else {
                assert(x.last() != '\n');
                assert(lines(x) == seq![x]);
                assert(lines(x).drop_last().push(lines(x).last().push(c)) =~= seq![s]);
            }
        },
        Some(i) => {
            assert forall|j: int| 0 <= j < i implies s[j] != '\n' by {
                assert(s[j] == x[j]);
            }
            assert(s[i] == x[i]);
            lemma_find_char_is(s, '\n', Some(i));
            let rest = x.skip(i + 1);
            assert(s.take(i) =~= x.take(i));
            assert(s.skip(i + 1) =~= rest.push(c));
            lemma_lines_push_char(rest, c);
            let h = seq![strip_cr(x.take(i))];
            assert(lines(x) == h + lines(rest));
            assert(lines(s) == h + lines(rest.push(c)));
            if rest.len() == 0 {
                assert(x.last() == x[i]);
                assert(lines(rest) =~= Seq::<Seq<char>>::empty());
                assert(lines(s) =~= lines(x).push(seq![c]));
            } else {
                assert(rest.last() == x.last());
                lemma_lines_nonempty(rest);
                if x.last() == '\n' {
                    assert(lines(s) =~= lines(x).push(seq![c]));
                } else {
                    assert(lines(s) =~= lines(x).drop_last().push(lines(x).last().push(c)));
                }
            }
        },
    }
}

/// Appending a newline to a text whose last line is open ends that line
/// (a trailing carriage return is then dropped from it).
pub proof fn lemma_lines_push_newline(x: Seq<char>)
    requires
        x.len() > 0,
        x.last() != '\n',
    ensures
        lines(x.push('\n')) == lines(x).drop_last().push(strip_cr(lines(x).last())),
    decreases x.len(),
{
    let s = x.push('\n');
    lemma_find_char(x, '\n');
    match find_char(x, '\n') {
        None => {
            assert forall|j: int| 0 <= j < x.len() implies s[j] != '\n' by {
                assert(s[j] == x[j]);
            }
            lemma_find_char_is(s, '\n', Some(x.len() as int));
            assert(s.take(x.len() as int) =~= x);
            assert(s.skip(x.len() + 1int) =~= Seq::<char>::empty());
            assert(lines(Seq::<char>::empty()) == Seq::<Seq<char>>::empty());
            assert(lines(x) == seq![x]);
            assert(lines(s) =~= lines(x).drop_last().push(strip_cr(lines(x).last())));
        },
        Some(i) => {
            assert forall|j: int| 0 <= j < i implies s[j] != '\n' by {
                assert(s[j] == x[j]);
            }
            assert(s[i] == x[i]);
            lemma_find_char_is(s, '\n', Some(i));
            let rest = x.skip(i + 1);
            assert(i < x.len() - 1);
            assert(rest.last() == x.last());
            assert(s.take(i) =~= x.take(i));
            assert(s.skip(i + 1) =~= rest.push('\n'));
            lemma_lines_push_newline(rest);
            lemma_lines_nonempty(rest);
            let h = seq![strip_cr(x.take(i))];
            assert(lines(x) == h + lines(rest));
            assert(lines(s) == h + lines(rest.push('\n')));
            assert(lines(s) =~= lines(x).drop_last().push(strip_cr(lines(x).last())));
        },
    }
}

/// No line of `ls` trims to `m`.
pub open spec fn none_trims_to(ls: Seq<Seq<char>>, m: Seq<char>) -> bool {
    forall|k: int| 0 <= k < ls.len() ==> trim(#[trigger] ls[k]) != m
}

/// Dropping a leading whitespace char keeps every line's trimmed text.
proof fn lemma_none_trims_drop_first(s: Seq<char>, m: Seq<char>)
    requires
        s.len() > 0,
        is_ws(s[0]),
        none_trims_to(lines(s), m),
    ensures
        none_trims_to(lines(s.drop_first()), m),
{
    let t = s.drop_first();
    lemma_find_char(s, '\n');
    if s[0] == '\n' {
        lemma_find_char_is(s, '\n', Some(0));
        assert(s.skip(1) =~= t);
        assert(lines(s) == seq![strip_cr(s.take(0))] + lines(t));
        assert forall|k: int| 0 <= k < lines(t).len() implies trim(#[trigger] lines(t)[k]) != m by {
            assert(lines(s)[k + 1] == lines(t)[k]);
        }
    } else {
        match find_char(s, '\n') {
            None => {
                assert forall|j: int| 0 <= j < t.len() implies t[j] != '\n' by {
                    assert(t[j] == s[j + 1]);
                }
                lemma_find_char_is(t, '\n', None);
                assert(lines(s) == seq![s]);
                if t.len() > 0 {
                    assert(lines(t) == seq![t]);
                    assert(trim_start(s) == trim_start(t));
                    assert(trim(lines(s)[0]) != m);
                } else {
                    assert(lines(t) =~= Seq::<Seq<char>>::empty());
                }
            },
            Some(i) => {
                assert(i >= 1);
                assert forall|j: int| 0 <= j < i - 1 implies t[j] != '\n' by {
                    assert(t[j] == s[j + 1]);
                }
                assert(t[i - 1] == s[i]);
                lemma_find_char_is(t, '\n', Some(i - 1));
                assert(t.skip(i) =~= s.skip(i + 1));
                let a = s.take(i);
                assert(t.take(i - 1) =~= a.drop_first());
                assert(lines(t) == seq![strip_cr(t.take(i - 1))] + lines(t.skip(i)));
                assert(lines(s) == seq![strip_cr(a)] + lines(s.skip(i + 1)));
                lemma_trim_strip_cr(a);
                lemma_trim_strip_cr(a.drop_first());
                assert(a[0] == s[0]);
                assert(trim_start(a) == trim_start(a.drop_first()));
                assert(trim(lines(s)[0]) != m);
                assert forall|k: int| 0 <= k < lines(t).len() implies trim(#[trigger] lines(t)[k]) != m by {
                    if k > 0 {
                        assert(lines(t)[k] == lines(s)[k]);
                    }
                }
            },
        }
    }
}

/// Trimming the start of a text keeps every line's trimmed text.
pub proof fn lemma_none_trims_trim_start(s: Seq<char>, m: Seq<char>)
    requires
        none_trims_to(lines(s), m),
    ensures
        none_trims_to(lines(trim_start(s)), m),
    decreases s.len(),
{
    if s.len() > 0 && is_ws(s[0]) {
        lemma_none_trims_drop_first(s, m);
        lemma_none_trims_trim_start(s.drop_first(), m);
    }
}

/// Dropping a trailing whitespace char keeps every line's trimmed text.
proof fn lemma_none_trims_drop_last(s: Seq<char>, m: Seq<char>)
    requires
        s.len() > 0,
        is_ws(s.last()),
        none_trims_to(lines(s), m),
    ensures
        none_trims_to(lines(s.drop_last()), m),
{
    let x = s.drop_last();
    let c = s.last();
    assert(x.push(c) =~= s);
    if x.len() == 0 || x.last() == '\n' {
        if c == '\n' {
            lemma_lines_append_line(x, Seq::<char>::empty());
            assert(x + Seq::<char>::empty() + seq!['\n'] =~= s);
        } else {
            lemma_lines_push_char(x, c);
        }
        assert forall|k: int| 0 <= k < lines(x).len() implies trim(#[trigger] lines(x)[k]) != m by {
            assert(lines(s)[k] == lines(x)[k]);
        }
    } else {
        lemma_lines_nonempty(x);
        let n = lines(x).len();
        let last = lines(x).last();
        if c == '\n' {
            lemma_lines_push_newline(x);
            lemma_trim_strip_cr(last);
            assert(lines(s)[n - 1] == strip_cr(last));
        } else {
            lemma_lines_push_char(x, c);
            lemma_trim_push_ws(last, c);
            assert(lines(s)[n - 1] == last.push(c));
        }
        assert forall|k: int| 0 <= k < lines(x).len() implies trim(#[trigger] lines(x)[k]) != m by {
            if k < n - 1 {
                assert(lines(s)[k] == lines(x)[k]);
            }
        }
    }
}

/// Trimming the end of a text keeps every line's trimmed text.
pub proof fn lemma_none_trims_trim_end(s: Seq<char>, m: Seq<char>)
    requires
        none_trims_to(lines(s), m),
    ensures
        none_trims_to(lines(trim_end(s)), m),
    decreases s.len(),
{
    if s.len() > 0 && is_ws(s.last()) {
        lemma_none_trims_drop_last(s, m);
        lemma_none_trims_trim_end(s.drop_last(), m);
    }
}

/// Ending the last line with a newline keeps every line's trimmed text.
pub proof fn lemma_none_trims_terminate(x: Seq<char>, m: Seq<char>)
    requires
        x.len() > 0,
        x.last() != '\n',
        none_trims_to(lines(x), m),
    ensures
        none_trims_to(lines(x.push('\n')), m),
{
    lemma_lines_push_newline(x);
    lemma_lines_nonempty(x);
    let n = lines(x).len();
    lemma_trim_strip_cr(lines(x).last());
    assert forall|k: int| 0 <= k < lines(x.push('\n')).len() implies trim(#[trigger] lines(x.push('\n'))[k]) != m by {
        if k < n - 1 {
            assert(lines(x.push('\n'))[k] == lines(x)[k]);
        } else {
            assert(lines(x.push('\n'))[k] == strip_cr(lines(x)[n - 1]));
        }
    }
}

/// A text in which `p` never occurs has no line starting with `p`.
pub proof fn lemma_no_line_starts_with(c: Seq<char>, p: Seq<char>)
    requires
        forall|j: int| 0 <= j ==> !occurs_at(c, p, j),
    ensures
        forall|k: int| 0 <= k < lines(c).len() ==> !starts_with(#[trigger] lines(c)[k], p),
    decreases c.len(),
{
    if c.len() > 0 {
        lemma_find_char(c, '\n');
        match find_char(c, '\n') {
            None => {
                assert(lines(c) == seq![c]);
                if starts_with(c, p) {
                    assert(occurs_at(c, p, 0));
                }
            },
            Some(i) => {
                let rest = c.skip(i + 1);
                assert forall|j: int| 0 <= j implies !occurs_at(rest, p, j) by {
                    if occurs_at(rest, p, j) {
                        assert(c.subrange(j + i + 1, j + i + 1 + p.len()) =~= rest.subrange(j, j + p.len()));
                        assert(occurs_at(c, p, j + i + 1));
                    }
                }
                lemma_no_line_starts_with(rest, p);
                let first = strip_cr(c.take(i));
                assert(lines(c) == seq![first] + lines(rest));
                assert(!starts_with(first, p)) by {
                    if starts_with(first, p) {
                        assert(c.subrange(0, p.len() as int) =~= first.subrange(0, p.len() as int));
                        assert(occurs_at(c, p, 0));
                    }
                }
                assert forall|k: int| 0 <= k < lines(c).len() implies !starts_with(#[trigger] lines(c)[k], p) by {
                    if k > 0 {
                        assert(lines(c)[k] == lines(rest)[k - 1]);
                    }
                }
            },
        }
    }
}

/// Without a line starting with `p`, none is found.
pub proof fn lemma_first_starting_none(ls: Seq<Seq<char>>, p: Seq<char>, i: int)
    requires
        0 <= i,
        forall|k: int| 0 <= k < ls.len() ==> !starts_with(#[trigger] ls[k], p),
    ensures
        first_starting_from(ls, p, i) is None,
    decreases ls.len() - i,
{
    if i < ls.len() {
        lemma_first_starting_none(ls, p, i + 1);
    }
}

} // verus!
