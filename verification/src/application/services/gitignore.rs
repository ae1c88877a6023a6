//! Gitignore management, in two tiers: the global `<base_dir>/.gitignore`
//! and, for a vault with a local config, `<vault>/.gitignore`. rsenv owns a
//! marked section of each file and leaves the rest alone.
use vstd::prelude::*;

use crate::application::envrc::context2;
use crate::application::error::{io_failed, ApplicationError};
use crate::config::{insert_sorted, strs, Settings, SopsConfig};
use crate::infrastructure::traits::FileSystem;
use crate::pathstr::{join, join_str, parent_str};
use crate::text::{
    chars_of, concat_lines, concat_lines_exec, eq_str, eq_vec, join as join_text, join_vec, lines,
    no_newline, push_all, push_str, sorted_unique, split_lines, string_of, strip_cr, trim,
    trim_end, trim_end_vec, trim_vec, views,
};

verus! {

/// First line of the managed section.
pub const START_MARKER: &'static str = "# rsenv-managed start";

/// Last line of the managed section.
pub const END_MARKER: &'static str = "# rsenv-managed end";

/// Difference between config patterns and gitignore patterns.
#[derive(Debug)]
pub struct GitignoreDiff {
    /// Patterns in config but not in gitignore (would be added)
    pub to_add: Vec<String>,
    /// Patterns in gitignore but not in config (would be removed)
    pub to_remove: Vec<String>,
    /// Whether config and gitignore are in sync
    pub in_sync: bool,
}

/// Status of global and per-vault gitignore.
#[derive(Debug)]
pub struct GitignoreStatus {
    /// Global gitignore path
    pub global_path: String,
    /// Global gitignore diff
    pub global_diff: GitignoreDiff,
    /// Per-vault gitignore (only if vault has local config)
    pub vault: Option<VaultGitignoreStatus>,
}

/// Status of per-vault gitignore.
#[derive(Debug)]
pub struct VaultGitignoreStatus {
    /// Vault gitignore path
    pub path: String,
    /// Vault gitignore diff
    pub diff: GitignoreDiff,
}

/// A vault directory with the settings of its local config, when it has
/// one.
#[derive(Debug)]
pub struct VaultConfig {
    pub dir: String,
    pub settings: Option<Settings>,
}

// ------------------------------------------------------------------
// Patterns
// ------------------------------------------------------------------

/// `*.<ext>` for each extension.
pub open spec fn star_patterns(exts: Seq<Seq<char>>) -> Seq<Seq<char>> {
    exts.map_values(|e: Seq<char>| "*."@ + e)
}

/// The patterns a SOPS config asks to ignore: `*.<ext>` for each extension
/// to encrypt, and each file name to encrypt.
pub open spec fn config_patterns(sops: SopsConfig) -> Set<Seq<char>> {
    star_patterns(strs(sops.file_extensions_enc@)).to_set().union(strs(sops.file_names_enc@).to_set())
}

/// The lines of a gitignore's managed sections that are patterns (neither
/// empty nor comments), trimmed; `in_managed` tells whether the scan starts
/// inside a section.
pub open spec fn managed_patterns(ls: Seq<Seq<char>>, in_managed: bool) -> Set<Seq<char>>
    decreases ls.len(),
{
    if ls.len() == 0 {
        Set::empty()
    } else {
        let t = trim(ls[0]);
        let rest = ls.drop_first();
        if t == START_MARKER@ {
            managed_patterns(rest, true)
        } else if t == END_MARKER@ {
            managed_patterns(rest, false)
        } else if in_managed && t.len() > 0 && t[0] != '#' {
            managed_patterns(rest, in_managed).insert(t)
        } else {
            managed_patterns(rest, in_managed)
        }
    }
}

/// The lines outside the managed sections (marker lines dropped).
pub open spec fn unmanaged_lines(ls: Seq<Seq<char>>, in_managed: bool) -> Seq<Seq<char>>
    decreases ls.len(),
{
    if ls.len() == 0 {
        seq![]
    } else {
        let t = trim(ls[0]);
        let rest = ls.drop_first();
        if t == START_MARKER@ {
            unmanaged_lines(rest, true)
        } else if t == END_MARKER@ {
            unmanaged_lines(rest, false)
        } else if !in_managed {
            seq![ls[0]] + unmanaged_lines(rest, in_managed)
        } else {
            unmanaged_lines(rest, in_managed)
        }
    }
}

/// A gitignore's text without its managed sections, each kept line ending
/// in a newline.
pub open spec fn without_managed(content: Seq<char>) -> Seq<char> {
    concat_lines(unmanaged_lines(lines(content), false))
}

/// The managed section for `patterns` (empty when there are none).
pub open spec fn managed_section(patterns: Seq<Seq<char>>, label: Seq<char>, stamp: Seq<char>) -> Seq<char> {
    if patterns.len() == 0 {
        seq![]
    } else {
        START_MARKER@ + "\n# Source: "@ + label + "\n# Updated: "@ + stamp + "\n"@ + join_text(patterns, "\n"@)
            + "\n"@ + END_MARKER@ + "\n"@
    }
}

/// The text a gitignore is rewritten to: its unmanaged part, then the new
/// managed section; a file left empty by cleaning gets the section and an
/// exception for encrypted files. The whole is trimmed.
pub open spec fn gitignore_content(existing: Seq<char>, patterns: Seq<Seq<char>>, label: Seq<char>, stamp: Seq<char>) -> Seq<char> {
    let cleaned = without_managed(existing);
    let section = managed_section(patterns, label, stamp);
    let new_content = if trim(cleaned).len() == 0 {
        if section.len() == 0 {
            seq![]
        } else {
            section + "\n# Encrypted files are safe to commit\n!*.enc\n"@
        }
    } else if section.len() == 0 {
        trim_end(cleaned)
    } else {
        trim_end(cleaned) + "\n\n"@ + section
    };
    trim(new_content)
}

/// A pattern fit for a managed section: a non-empty trimmed line that is
/// no comment.
pub open spec fn plain_pattern(p: Seq<char>) -> bool {
    p.len() > 0 && trim(p) == p && p[0] != '#' && no_newline(p)
}

proof fn lemma_plain_patterns_read(ps: Seq<Seq<char>>, rest: Seq<Seq<char>>)
    requires
        forall|k: int| 0 <= k < ps.len() ==> plain_pattern(#[trigger] ps[k]),
        !START_MARKER@.contains('\n'),
    ensures
        managed_patterns(ps.map_values(|l: Seq<char>| strip_cr(l)) + rest, true) == managed_patterns(rest, true).union(ps.to_set()),
    decreases ps.len(),
{
    reveal_strlit("# rsenv-managed start");
    reveal_strlit("# rsenv-managed end");
    if ps.len() == 0 {
        assert(ps.map_values(|l: Seq<char>| strip_cr(l)) + rest =~= rest);
        assert(ps.to_set() =~= Set::<Seq<char>>::empty());
        assert(managed_patterns(rest, true).union(Set::empty()) =~= managed_patterns(rest, true));
    } else {
        let p = ps[0];
        assert(plain_pattern(p));
        let all = ps.map_values(|l: Seq<char>| strip_cr(l)) + rest;
        let tail = ps.drop_first();
        assert(p.last() != '\r') by {
            if p.last() == '\r' {
                assert(crate::text::is_ws('\r'));
                assert(trim(p) == crate::text::trim_end(crate::text::trim_start(p)));
                assert(p.drop_last().push('\r') =~= p);
                crate::text::lemma_trim_push_ws(p.drop_last(), '\r');
                assert(trim(p).len() <= p.drop_last().len()) by {
                    lemma_trim_len(p.drop_last());
                }
            }
        }
        assert(strip_cr(p) == p);
        assert(all[0] == p);
        assert(all.drop_first() =~= tail.map_values(|l: Seq<char>| strip_cr(l)) + rest);
        assert forall|k: int| 0 <= k < tail.len() implies plain_pattern(#[trigger] tail[k]) by {
            assert(tail[k] == ps[k + 1]);
        }
        lemma_plain_patterns_read(tail, rest);
        assert(p != START_MARKER@) by {
            assert(START_MARKER@[0] == '#');
        }
        assert(p != END_MARKER@) by {
            assert(END_MARKER@[0] == '#');
        }
        assert(ps =~= seq![p] + tail);
        assert(ps.to_set() =~= tail.to_set().insert(p)) by {
            assert forall|x: Seq<char>| ps.to_set().contains(x) <==> tail.to_set().insert(p).contains(x) by {
                if ps.contains(x) {
                    let q = choose|q: int| 0 <= q < ps.len() && ps[q] == x;
                    if q > 0 {
                        assert(tail[q - 1] == x);
                    }
                }
                if tail.contains(x) {
                    let q = choose|q: int| 0 <= q < tail.len() && tail[q] == x;
                    assert(ps[q + 1] == x);
                }
                if x == p {
                    assert(ps[0] == x);
                }
            }
        }
        assert(managed_patterns(rest, true).union(tail.to_set()).insert(p) =~= managed_patterns(rest, true).union(ps.to_set()));
    }
}

proof fn lemma_trim_len(s: Seq<char>)
    ensures
        trim(s).len() <= s.len(),
{
    lemma_trim_start_len(s);
    lemma_trim_end_len(crate::text::trim_start(s));
}

proof fn lemma_trim_start_len(s: Seq<char>)
    ensures
        crate::text::trim_start(s).len() <= s.len(),
    decreases s.len(),
{
    if s.len() > 0 && crate::text::is_ws(s[0]) {
        lemma_trim_start_len(s.drop_first());
    }
}

proof fn lemma_trim_end_len(s: Seq<char>)
    ensures
        crate::text::trim_end(s).len() <= s.len(),
    decreases s.len(),
{
    if s.len() > 0 && crate::text::is_ws(s.last()) {
        lemma_trim_end_len(s.drop_last());
    }
}

/// A comment line of the managed section reads as a comment.
proof fn lemma_header_line(head: Seq<char>, value: Seq<char>)
    requires
        head.len() >= 3,
        head[0] == '#',
        head[2] != 'r',
        !crate::text::is_ws(head.last()),
    ensures
        trim(strip_cr(head + value)) != START_MARKER@,
        trim(strip_cr(head + value)) != END_MARKER@,
        trim(strip_cr(head + value)).len() > 0,
        trim(strip_cr(head + value))[0] == '#',
{
    reveal_strlit("# rsenv-managed start");
    reveal_strlit("# rsenv-managed end");
    let l = head + value;
    crate::text::lemma_trim_strip_cr(l);
    assert(!crate::text::is_ws(l[0]));
    assert(crate::text::trim_start(l) == l);
    crate::text::lemma_trim_end_concat(head, value);
    let t = trim(l);
    assert(t == head + crate::text::trim_end(value));
    assert(t[0] == '#');
    assert(t[2] == head[2]);
    assert(START_MARKER@[2] == 'r');
    assert(END_MARKER@[2] == 'r');
}

/// `# Source:` and `# Updated:`, the heads of the section's comment lines.
spec fn source_head() -> Seq<char> {
    seq!['#', ' ', 'S', 'o', 'u', 'r', 'c', 'e', ':']
}

spec fn updated_head() -> Seq<char> {
    seq!['#', ' ', 'U', 'p', 'd', 'a', 't', 'e', 'd', ':']
}

/// The lines of a non-empty managed section.
spec fn section_lines(patterns: Seq<Seq<char>>, label: Seq<char>, stamp: Seq<char>) -> Seq<Seq<char>> {
    seq![START_MARKER@, source_head() + seq![' '] + label, updated_head() + seq![' '] + stamp] + patterns
        + seq![END_MARKER@]
}

proof fn lemma_section_text(patterns: Seq<Seq<char>>, label: Seq<char>, stamp: Seq<char>)
    requires
        patterns.len() > 0,
    ensures
        managed_section(patterns, label, stamp) == concat_lines(section_lines(patterns, label, stamp)),
{
    reveal_strlit("\n# Source: ");
    reveal_strlit("\n# Updated: ");
    reveal_strlit("\n");
    let c1 = source_head() + seq![' '] + label;
    let c2 = updated_head() + seq![' '] + stamp;
    let head = seq![START_MARKER@, c1, c2];
    crate::text::lemma_join_newline_concat(patterns);
    crate::text::lemma_concat_lines_append(head, patterns);
    crate::text::lemma_concat_lines_append(head + patterns, seq![END_MARKER@]);
    assert(concat_lines(Seq::<Seq<char>>::empty()) == Seq::<char>::empty());
    assert(seq![END_MARKER@].drop_last() =~= Seq::<Seq<char>>::empty());
    assert(concat_lines(seq![END_MARKER@]) == concat_lines(seq![END_MARKER@].drop_last()) + END_MARKER@ + seq!['\n']);
    let h1 = seq![START_MARKER@];
    let h2 = seq![START_MARKER@, c1];
    assert(h1.drop_last() =~= Seq::<Seq<char>>::empty());
    assert(h2.drop_last() =~= h1);
    assert(head.drop_last() =~= h2);
    assert(concat_lines(h1) == concat_lines(h1.drop_last()) + START_MARKER@ + seq!['\n']);
    assert(concat_lines(h2) == concat_lines(h2.drop_last()) + c1 + seq!['\n']);
    assert(concat_lines(head) == concat_lines(head.drop_last()) + c2 + seq!['\n']);
    assert("\n# Source: "@ =~= seq!['\n'] + source_head() + seq![' ']);
    assert("\n# Updated: "@ =~= seq!['\n'] + updated_head() + seq![' ']);
    assert("\n"@ =~= seq!['\n']);
    assert(head + patterns + seq![END_MARKER@] =~= section_lines(patterns, label, stamp));
    assert(managed_section(patterns, label, stamp) =~= concat_lines(section_lines(patterns, label, stamp)));
}

proof fn lemma_section_lines_plain(patterns: Seq<Seq<char>>, label: Seq<char>, stamp: Seq<char>)
    requires
        forall|k: int| 0 <= k < patterns.len() ==> plain_pattern(#[trigger] patterns[k]),
        no_newline(label),
        no_newline(stamp),
    ensures
        forall|k: int| 0 <= k < section_lines(patterns, label, stamp).len() ==> no_newline(#[trigger] section_lines(patterns, label, stamp)[k]),
{
    reveal_strlit("# rsenv-managed start");
    reveal_strlit("# rsenv-managed end");
    let lst = section_lines(patterns, label, stamp);
    let c1 = source_head() + seq![' '] + label;
    let c2 = updated_head() + seq![' '] + stamp;
    assert forall|k: int| 0 <= k < lst.len() implies no_newline(#[trigger] lst[k]) by {
        if k == 1 {
            assert(lst[1] == c1);
            assert forall|j: int| 0 <= j < c1.len() implies c1[j] != '\n' by {
                if j >= 10 {
                    assert(c1[j] == label[j - 10]);
                }
            }
        } else if k == 2 {
            assert(lst[2] == c2);
            assert forall|j: int| 0 <= j < c2.len() implies c2[j] != '\n' by {
                if j >= 11 {
                    assert(c2[j] == stamp[j - 11]);
                }
            }
        } else if 3 <= k < 3 + patterns.len() {
            assert(lst[k] == patterns[k - 3]);
            assert(plain_pattern(patterns[k - 3]));
        }
    }
}

proof fn lemma_section_scan(patterns: Seq<Seq<char>>, label: Seq<char>, stamp: Seq<char>, tail: Seq<Seq<char>>)
    requires
        forall|k: int| 0 <= k < patterns.len() ==> plain_pattern(#[trigger] patterns[k]),
    ensures
        managed_patterns(section_lines(patterns, label, stamp).map_values(|l: Seq<char>| strip_cr(l)) + tail, false)
            == patterns.to_set().union(managed_patterns(tail, false)),
{
    reveal_strlit("# rsenv-managed start");
    reveal_strlit("# rsenv-managed end");
    let c1 = source_head() + seq![' '] + label;
    let c2 = updated_head() + seq![' '] + stamp;
    let read = section_lines(patterns, label, stamp).map_values(|l: Seq<char>| strip_cr(l)) + tail;
    assert(read[0] == START_MARKER@);
    assert(trim(START_MARKER@) == START_MARKER@) by {
        assert(crate::text::trim_start(START_MARKER@) == START_MARKER@);
        assert(crate::text::trim_end(START_MARKER@) == START_MARKER@);
    }
    assert(trim(END_MARKER@) == END_MARKER@) by {
        assert(crate::text::trim_start(END_MARKER@) == END_MARKER@);
        assert(crate::text::trim_end(END_MARKER@) == END_MARKER@);
    }
    lemma_header_line(source_head(), seq![' '] + label);
    lemma_header_line(updated_head(), seq![' '] + stamp);
    assert(source_head() + (seq![' '] + label) =~= c1);
    assert(updated_head() + (seq![' '] + stamp) =~= c2);
    let after_head = read.skip(3);
    assert(after_head =~= patterns.map_values(|l: Seq<char>| strip_cr(l)) + (seq![END_MARKER@] + tail));
    assert(read.drop_first().drop_first().drop_first() =~= after_head);
    assert(managed_patterns(read, false) == managed_patterns(read.drop_first(), true));
    assert(read.drop_first()[0] == strip_cr(c1));
    assert(managed_patterns(read.drop_first(), true) == managed_patterns(read.drop_first().drop_first(), true));
    assert(read.drop_first().drop_first()[0] == strip_cr(c2));
    assert(managed_patterns(read.drop_first().drop_first(), true) == managed_patterns(after_head, true));
    lemma_plain_patterns_read(patterns, seq![END_MARKER@] + tail);
    assert((seq![END_MARKER@] + tail)[0] == END_MARKER@);
    assert((seq![END_MARKER@] + tail).drop_first() =~= tail);
    assert(managed_patterns(seq![END_MARKER@] + tail, true) == managed_patterns(tail, false));
    assert(managed_patterns(tail, false).union(patterns.to_set()) =~= patterns.to_set().union(managed_patterns(tail, false)));
}

/// The managed section written for plain patterns (with a one-line label
/// and time stamp) reads back as exactly those patterns.
pub proof fn lemma_managed_section_reads_back(patterns: Seq<Seq<char>>, label: Seq<char>, stamp: Seq<char>)
    requires
        forall|k: int| 0 <= k < patterns.len() ==> plain_pattern(#[trigger] patterns[k]),
        no_newline(label),
        no_newline(stamp),
    ensures
        managed_patterns(lines(managed_section(patterns, label, stamp)), false) == patterns.to_set(),
{
    if patterns.len() == 0 {
        assert(lines(Seq::<char>::empty()) == Seq::<Seq<char>>::empty());
        assert(patterns.to_set() =~= Set::<Seq<char>>::empty());
    } else {
        lemma_section_text(patterns, label, stamp);
        lemma_section_lines_plain(patterns, label, stamp);
        crate::text::lemma_lines_of_concat(section_lines(patterns, label, stamp));
        lemma_section_scan(patterns, label, stamp, seq![]);
        let read = section_lines(patterns, label, stamp).map_values(|l: Seq<char>| strip_cr(l));
        assert(read + Seq::<Seq<char>>::empty() =~= read);
        assert(managed_patterns(Seq::<Seq<char>>::empty(), false) == Set::<Seq<char>>::empty());
        assert(patterns.to_set().union(Set::<Seq<char>>::empty()) =~= patterns.to_set());
    }
}

/// Lines none of which opens a managed section add no pattern and leave the
/// scan outside.
proof fn lemma_scan_skips(a: Seq<Seq<char>>, b: Seq<Seq<char>>)
    requires
        crate::text::none_trims_to(a, START_MARKER@),
    ensures
        managed_patterns(a + b, false) == managed_patterns(b, false),
    decreases a.len(),
{
    if a.len() == 0 {
        assert(a + b =~= b);
    } else {
        assert(trim(a[0]) != START_MARKER@);
        assert((a + b)[0] == a[0]);
        assert((a + b).drop_first() =~= a.drop_first() + b);
        assert forall|k: int| 0 <= k < a.drop_first().len() implies trim(#[trigger] a.drop_first()[k]) != START_MARKER@ by {
            assert(a.drop_first()[k] == a[k + 1]);
        }
        lemma_scan_skips(a.drop_first(), b);
    }
}

/// The lines kept outside the managed sections are lines of the text, and
/// none of them is a marker.
proof fn lemma_unmanaged_lines(ls: Seq<Seq<char>>, st: bool)
    requires
        forall|k: int| 0 <= k < ls.len() ==> no_newline(#[trigger] ls[k]),
    ensures
        forall|k: int| 0 <= k < unmanaged_lines(ls, st).len() ==> no_newline(#[trigger] unmanaged_lines(ls, st)[k]),
        crate::text::none_trims_to(unmanaged_lines(ls, st), START_MARKER@),
        crate::text::none_trims_to(unmanaged_lines(ls, st), END_MARKER@),
    decreases ls.len(),
{
    if ls.len() > 0 {
        let rest = ls.drop_first();
        assert forall|k: int| 0 <= k < rest.len() implies no_newline(#[trigger] rest[k]) by {
            assert(rest[k] == ls[k + 1]);
        }
        lemma_unmanaged_lines(rest, true);
        lemma_unmanaged_lines(rest, false);
        let t = trim(ls[0]);
        if t != START_MARKER@ && t != END_MARKER@ && !st {
            let u = unmanaged_lines(ls, st);
            assert(u == seq![ls[0]] + unmanaged_lines(rest, st));
            assert forall|k: int| 0 <= k < u.len() implies no_newline(#[trigger] u[k]) && trim(u[k]) != START_MARKER@ && trim(u[k]) != END_MARKER@ by {
                if k > 0 {
                    assert(u[k] == unmanaged_lines(rest, st)[k - 1]);
                }
            }
        }
    }
}

/// `trim_end` keeps a prefix, dropping only whitespace, and ends in a
/// non-space when anything is left.
proof fn lemma_trim_end_prefix(s: Seq<char>)
    ensures
        crate::text::trim_end(s).len() <= s.len(),
        crate::text::trim_end(s) == s.take(crate::text::trim_end(s).len() as int),
        forall|j: int| crate::text::trim_end(s).len() <= j < s.len() ==> crate::text::is_ws(#[trigger] s[j]),
        crate::text::trim_end(s).len() > 0 ==> !crate::text::is_ws(crate::text::trim_end(s).last()),
    decreases s.len(),
{
    if s.len() > 0 && crate::text::is_ws(s.last()) {
        lemma_trim_end_prefix(s.drop_last());
        let t = crate::text::trim_end(s.drop_last());
        assert(s.drop_last().take(t.len() as int) =~= s.take(t.len() as int));
        assert forall|j: int| t.len() <= j < s.len() implies crate::text::is_ws(#[trigger] s[j]) by {
            if j < s.len() - 1 {
                assert(s[j] == s.drop_last()[j]);
            }
        }
    } else {
        assert(s.take(s.len() as int) =~= s);
    }
}

/// `trim_start` keeps a suffix, dropping only whitespace.
proof fn lemma_trim_start_suffix(s: Seq<char>)
    ensures
        crate::text::trim_start(s).len() <= s.len(),
        crate::text::trim_start(s) == s.skip(s.len() - crate::text::trim_start(s).len()),
        forall|j: int| 0 <= j < s.len() - crate::text::trim_start(s).len() ==> crate::text::is_ws(#[trigger] s[j]),
    decreases s.len(),
{
    if s.len() > 0 && crate::text::is_ws(s[0]) {
        lemma_trim_start_suffix(s.drop_first());
        let t = crate::text::trim_start(s.drop_first());
        assert(s.drop_first().skip(s.len() - 1 - t.len()) =~= s.skip(s.len() - t.len()));
        assert forall|j: int| 0 <= j < s.len() - t.len() implies crate::text::is_ws(#[trigger] s[j]) by {
            if j > 0 {
                assert(s[j] == s.drop_first()[j - 1]);
            }
        }
    } else {
        assert(s.skip(0) =~= s);
    }
}

/// Trimming the start of `x + y` leaves `y` whole when `x` has a non-space.
proof fn lemma_trim_start_concat(x: Seq<char>, y: Seq<char>)
    requires
        crate::text::trim_start(x).len() > 0,
    ensures
        crate::text::trim_start(x + y) == crate::text::trim_start(x) + y,
    decreases x.len(),
{
    assert(x.len() > 0);
    assert((x + y)[0] == x[0]);
    if crate::text::is_ws(x[0]) {
        assert((x + y).drop_first() =~= x.drop_first() + y);
        lemma_trim_start_concat(x.drop_first(), y);
    }
}

/// A trimmed text with something left: its end-trimmed form keeps a last
/// non-space, and start-trimming that leaves a non-empty text with the same
/// last char.
proof fn lemma_trimmed_nonempty(c: Seq<char>)
    requires
        trim(c).len() > 0,
    ensures
        crate::text::trim_end(c).len() > 0,
        !crate::text::is_ws(crate::text::trim_end(c).last()),
        crate::text::trim_start(crate::text::trim_end(c)).len() > 0,
        crate::text::trim_start(crate::text::trim_end(c)).last() == crate::text::trim_end(c).last(),
{
    let ts = crate::text::trim_start(c);
    lemma_trim_start_suffix(c);
    lemma_trim_end_prefix(ts);
    let k = crate::text::trim_end(ts).len() - 1;
    let p = c.len() - ts.len() + k;
    assert(!crate::text::is_ws(ts[k])) by {
        assert(crate::text::trim_end(ts).last() == crate::text::trim_end(ts)[k]);
        assert(crate::text::trim_end(ts)[k] == ts.take(crate::text::trim_end(ts).len() as int)[k]);
    }
    assert(c[p] == ts[k]);
    let e = crate::text::trim_end(c);
    lemma_trim_end_prefix(c);
    assert(e.len() > 0) by {
        if e.len() == 0 {
            assert(crate::text::is_ws(c[p]));
        }
    }
    let x = crate::text::trim_start(e);
    lemma_trim_start_suffix(e);
    assert(x.len() > 0) by {
        if x.len() == 0 {
            assert(crate::text::is_ws(e[e.len() - 1]));
        }
    }
    assert(x.last() == e.last()) by {
        assert(x == e.skip(e.len() - x.len()));
        assert(x[x.len() - 1] == e[e.len() - 1]);
    }
}

/// The managed section's text ends in a newline after its end marker.
proof fn lemma_section_ends(patterns: Seq<Seq<char>>, label: Seq<char>, stamp: Seq<char>)
    requires
        patterns.len() > 0,
    ensures
        managed_section(patterns, label, stamp).len() > 1,
        managed_section(patterns, label, stamp).last() == '\n',
        managed_section(patterns, label, stamp)[0] == '#',
        !crate::text::is_ws(managed_section(patterns, label, stamp).drop_last().last()),
        managed_section(patterns, label, stamp).drop_last().last() != '\r',
{
    reveal_strlit("# rsenv-managed start");
    reveal_strlit("# rsenv-managed end");
    lemma_section_text(patterns, label, stamp);
    let ls = section_lines(patterns, label, stamp);
    let sec = managed_section(patterns, label, stamp);
    assert(ls.last() == END_MARKER@);
    assert(sec == concat_lines(ls.drop_last()) + END_MARKER@ + seq!['\n']);
    assert(sec.drop_last() =~= concat_lines(ls.drop_last()) + END_MARKER@);
    assert(sec.drop_last().last() == 'd');
    assert(sec[0] == '#') by {
        assert(ls.drop_last() =~= seq![START_MARKER@, source_head() + seq![' '] + label, updated_head() + seq![' '] + stamp] + patterns);
        crate::text::lemma_concat_lines_append(seq![START_MARKER@], ls.drop_last().drop_first());
        assert(seq![START_MARKER@] + ls.drop_last().drop_first() =~= ls.drop_last());
        assert(seq![START_MARKER@].drop_last() =~= Seq::<Seq<char>>::empty());
        assert(seq![START_MARKER@].last() == START_MARKER@);
        assert(concat_lines(Seq::<Seq<char>>::empty()) == Seq::<char>::empty());
        assert(concat_lines(seq![START_MARKER@]) == concat_lines(seq![START_MARKER@].drop_last()) + START_MARKER@ + seq!['\n']);
        assert(concat_lines(seq![START_MARKER@]) =~= START_MARKER@ + seq!['\n']);
    }
}

/// The lines of the exception written into a gitignore that holds nothing
/// else: none of them opens a managed section.
proof fn lemma_exception_lines()
    ensures
        crate::text::none_trims_to(lines("\n# Encrypted files are safe to commit\n!*.enc"@), START_MARKER@),
{
    reveal_strlit("\n# Encrypted files are safe to commit\n!*.enc");
    reveal_strlit("# rsenv-managed start");
    let t = "\n# Encrypted files are safe to commit\n!*.enc"@;
    let l1 = t.subrange(1, 37);
    let l2 = t.subrange(38, t.len() as int);
    assert(t =~= seq!['\n'] + (l1 + seq!['\n'] + l2));
    crate::text::lemma_lines_concat(seq!['\n'], l1 + seq!['\n'] + l2);
    crate::text::lemma_lines_append_line(Seq::<char>::empty(), Seq::<char>::empty());
    assert(Seq::<char>::empty() + Seq::<char>::empty() + seq!['\n'] =~= seq!['\n']);
    crate::text::lemma_lines_concat(l1 + seq!['\n'], l2);
    crate::text::lemma_lines_append_line(Seq::<char>::empty(), l1);
    assert(Seq::<char>::empty() + l1 + seq!['\n'] =~= l1 + seq!['\n']);
    crate::text::lemma_lines_no_newline(l2);
    crate::text::lemma_find_char_is(l2, '\n', None);
    assert(lines(l2) == seq![l2]);
    let ls = lines(t);
    assert(ls =~= seq![strip_cr(Seq::<char>::empty()), strip_cr(l1), l2]);
    assert(strip_cr(l1) == l1);
    assert(trim(Seq::<char>::empty()) =~= Seq::<char>::empty());
    assert(crate::text::trim_start(l1) == l1);
    assert(crate::text::trim_end(l1) == l1);
    assert(trim(l1)[2] != START_MARKER@[2]);
    assert(crate::text::trim_start(l2) == l2);
    assert(crate::text::trim_end(l2) == l2);
    assert(trim(l2)[0] != START_MARKER@[0]);
}

/// Rewriting a gitignore with plain patterns (under a one-line source
/// label and time stamp) leaves exactly those patterns in its managed
/// section, whatever the file held before.
pub proof fn lemma_rewritten_gitignore_reads_back(existing: Seq<char>, patterns: Seq<Seq<char>>, label: Seq<char>, stamp: Seq<char>)
    requires
        forall|k: int| 0 <= k < patterns.len() ==> plain_pattern(#[trigger] patterns[k]),
        no_newline(label),
        no_newline(stamp),
    ensures
        managed_patterns(lines(gitignore_content(existing, patterns, label, stamp)), false) == patterns.to_set(),
{
    let ls = lines(existing);
    crate::text::lemma_lines_no_newline(existing);
    lemma_unmanaged_lines(ls, false);
    let u = unmanaged_lines(ls, false);
    let cleaned = without_managed(existing);
    crate::text::lemma_lines_of_concat(u);
    assert(crate::text::none_trims_to(lines(cleaned), START_MARKER@)) by {
        assert forall|k: int| 0 <= k < lines(cleaned).len() implies trim(#[trigger] lines(cleaned)[k]) != START_MARKER@ by {
            assert(lines(cleaned)[k] == strip_cr(u[k]));
            crate::text::lemma_trim_strip_cr(u[k]);
        }
    }
    let section = managed_section(patterns, label, stamp);
    let content = gitignore_content(existing, patterns, label, stamp);
    let read = section_lines(patterns, label, stamp).map_values(|l: Seq<char>| strip_cr(l));
    if patterns.len() > 0 {
        lemma_section_text(patterns, label, stamp);
        lemma_section_lines_plain(patterns, label, stamp);
        crate::text::lemma_lines_of_concat(section_lines(patterns, label, stamp));
        lemma_section_ends(patterns, label, stamp);
        assert(lines(section) == read);
    }
    if trim(cleaned).len() == 0 {
        if patterns.len() == 0 {
            assert(section.len() == 0);
            assert(content =~= trim(Seq::<char>::empty()));
            assert(lines(Seq::<char>::empty()) == Seq::<Seq<char>>::empty());
            assert(patterns.to_set() =~= Set::<Seq<char>>::empty());
        } else {
            let exc = "\n# Encrypted files are safe to commit\n!*.enc"@;
            reveal_strlit("\n# Encrypted files are safe to commit\n!*.enc\n");
            reveal_strlit("\n# Encrypted files are safe to commit\n!*.enc");
            let whole = section + "\n# Encrypted files are safe to commit\n!*.enc\n"@;
            assert(whole =~= (section + exc) + seq!['\n']);
            assert(exc.last() == 'c');
            crate::text::lemma_trim_end_concat(section + exc, seq!['\n']);
            assert(crate::text::trim_end(seq!['\n']) =~= Seq::<char>::empty()) by {
                assert(crate::text::is_ws('\n'));
                assert(seq!['\n'].last() == '\n');
                assert(seq!['\n'].drop_last() =~= Seq::<char>::empty());
                assert(crate::text::trim_end(Seq::<char>::empty()) == Seq::<char>::empty());
            }
            assert(whole[0] == '#');
            assert(crate::text::trim_start(whole) == whole);
            assert(content == crate::text::trim_end(whole));
            assert(content =~= section + exc);
            crate::text::lemma_lines_concat(section, exc);
            lemma_exception_lines();
            lemma_section_scan(patterns, label, stamp, lines(exc));
            lemma_scan_skips(lines(exc), Seq::<Seq<char>>::empty());
            assert(lines(exc) + Seq::<Seq<char>>::empty() =~= lines(exc));
            assert(patterns.to_set().union(Set::<Seq<char>>::empty()) =~= patterns.to_set());
        }
    } else {
        lemma_trimmed_nonempty(cleaned);
        let e = crate::text::trim_end(cleaned);
        let x = crate::text::trim_start(e);
        crate::text::lemma_none_trims_trim_end(cleaned, START_MARKER@);
        crate::text::lemma_none_trims_trim_start(e, START_MARKER@);
        if patterns.len() == 0 {
            assert(section.len() == 0);
            assert(content == trim(e));
            crate::text::lemma_none_trims_trim_end(x, START_MARKER@);
            lemma_scan_skips(lines(trim(e)), Seq::<Seq<char>>::empty());
            assert(lines(trim(e)) + Seq::<Seq<char>>::empty() =~= lines(trim(e)));
            assert(patterns.to_set() =~= Set::<Seq<char>>::empty());
        } else {
            let s2 = section.drop_last();
            assert(section =~= s2.push('\n'));
            let whole = e + "\n\n"@ + section;
            reveal_strlit("\n\n");
            assert(whole =~= e + (seq!['\n', '\n'] + section));
            lemma_trim_start_concat(e, seq!['\n', '\n'] + section);
            assert(crate::text::trim_start(whole) =~= x + seq!['\n', '\n'] + s2 + seq!['\n']);
            assert((x + seq!['\n', '\n'] + s2).last() == s2.last());
            crate::text::lemma_trim_end_concat(x + seq!['\n', '\n'] + s2, seq!['\n']);
            assert(crate::text::trim_end(seq!['\n']) =~= Seq::<char>::empty()) by {
                assert(crate::text::is_ws('\n'));
                assert(seq!['\n'].last() == '\n');
                assert(seq!['\n'].drop_last() =~= Seq::<char>::empty());
                assert(crate::text::trim_end(Seq::<char>::empty()) == Seq::<char>::empty());
            }
            assert(content =~= x.push('\n') + (seq!['\n'] + s2));
            crate::text::lemma_lines_concat(x.push('\n'), seq!['\n'] + s2);
            crate::text::lemma_lines_concat(seq!['\n'], s2);
            crate::text::lemma_lines_append_line(Seq::<char>::empty(), Seq::<char>::empty());
            assert(Seq::<char>::empty() + Seq::<char>::empty() + seq!['\n'] =~= seq!['\n']);
            crate::text::lemma_lines_terminate(s2);
            assert(s2 + seq!['\n'] =~= section);
            assert(lines(s2) == read);
            assert(x.last() != '\n') by {
                assert(crate::text::is_ws('\n'));
            }
            crate::text::lemma_none_trims_terminate(x, START_MARKER@);
            let p = lines(x.push('\n'));
            let blank = seq![strip_cr(Seq::<char>::empty())];
            assert(lines(content) =~= p + (blank + read));
            lemma_scan_skips(p, blank + read);
            assert(blank[0] =~= Seq::<char>::empty());
            assert(trim(Seq::<char>::empty()) =~= Seq::<char>::empty());
            reveal_strlit("# rsenv-managed start");
            reveal_strlit("# rsenv-managed end");
            assert((blank + read).drop_first() =~= read);
            assert(managed_patterns(blank + read, false) == managed_patterns(read, false));
            lemma_section_scan(patterns, label, stamp, Seq::<Seq<char>>::empty());
            assert(read + Seq::<Seq<char>>::empty() =~= read);
            assert(patterns.to_set().union(Set::<Seq<char>>::empty()) =~= patterns.to_set());
        }
    }
}

/// Sorted distinct texts as strings.
fn strings_of(v: &Vec<Vec<char>>) -> (r: Vec<String>)
    ensures
        strs(r@) == views(v@),
{
    let mut r: Vec<String> = Vec::new();
    let mut i: usize = 0;
    while i < v.len()
        invariant
            i <= v.len(),
            strs(r@) == views(v@).take(i as int),
        decreases v.len() - i,
    {
        let ghost before = r@;
        let x = string_of(&v[i]);
        r.push(x);
        proof {
            assert(strs(r@) =~= strs(before).push(x@));
            assert(views(v@).take(i + 1) =~= views(v@).take(i as int).push(v@[i as int]@));
        }
        i = i + 1;
    }
    assert(views(v@).take(v.len() as int) =~= views(v@));
    r
}

/// The patterns of a SOPS config, sorted and distinct.
pub fn patterns_from_config(sops: &SopsConfig) -> (r: Vec<String>)
    ensures
        sorted_unique(strs(r@)),
        strs(r@).to_set() == config_patterns(*sops),
{
    let mut v: Vec<Vec<char>> = Vec::new();
    let ghost exts = strs(sops.file_extensions_enc@);
    let ghost names = strs(sops.file_names_enc@);
    assert(views(v@).to_set() =~= star_patterns(exts.take(0)).to_set());
    let mut i: usize = 0;
    while i < sops.file_extensions_enc.len()
        invariant
            i <= sops.file_extensions_enc.len(),
            exts == strs(sops.file_extensions_enc@),
            sorted_unique(views(v@)),
            views(v@).to_set() == star_patterns(exts.take(i as int)).to_set(),
        decreases sops.file_extensions_enc.len() - i,
    {
        let mut p = chars_of("*.");
        push_str(&mut p, sops.file_extensions_enc[i].as_str());
        proof {
            assert(star_patterns(exts.take(i + 1)) =~= star_patterns(exts.take(i as int)).push(p@));
            crate::config::lemma_push_to_set(star_patterns(exts.take(i as int)), p@);
        }
        insert_sorted(&mut v, p);
        i = i + 1;
    }
    assert(exts.take(i as int) =~= exts);
    let mut j: usize = 0;
    assert(names.take(0).to_set() =~= Set::<Seq<char>>::empty());
    assert(views(v@).to_set() =~= star_patterns(exts).to_set().union(names.take(0).to_set()));
    while j < sops.file_names_enc.len()
        invariant
            j <= sops.file_names_enc.len(),
            names == strs(sops.file_names_enc@),
            sorted_unique(views(v@)),
            views(v@).to_set() == star_patterns(exts).to_set().union(names.take(j as int).to_set()),
        decreases sops.file_names_enc.len() - j,
    {
        let n = chars_of(sops.file_names_enc[j].as_str());
        proof {
            assert(names.take(j + 1) =~= names.take(j as int).push(n@));
            crate::config::lemma_push_to_set(names.take(j as int), n@);
            assert(star_patterns(exts).to_set().union(names.take(j as int).to_set()).insert(n@) =~= star_patterns(exts).to_set().union(names.take(j + 1).to_set()));
        }
        insert_sorted(&mut v, n);
        j = j + 1;
    }
    assert(names.take(j as int) =~= names);
    strings_of(&v)
}

/// The patterns currently in a gitignore's managed section, sorted and
/// distinct.
pub fn extract_managed_patterns(content: &str) -> (r: Vec<String>)
    ensures
        sorted_unique(strs(r@)),
        strs(r@).to_set() == managed_patterns(lines(content@), false),
{
    let cv = chars_of(content);
    let ls = split_lines(&cv);
    let ghost all = views(ls@);
    let mut v: Vec<Vec<char>> = Vec::new();
    let mut in_managed = false;
    let mut i: usize = 0;
    assert(all.skip(0) =~= all);
    assert(views(v@).to_set().union(managed_patterns(all, false)) =~= managed_patterns(all, false));
    while i < ls.len()
        invariant
            i <= ls.len(),
            all == views(ls@),
            sorted_unique(views(v@)),
            views(v@).to_set().union(managed_patterns(all.skip(i as int), in_managed)) == managed_patterns(all, false),
        decreases ls.len() - i,
    {
        let t = trim_vec(&ls[i]);
        let ghost rest = all.skip(i as int);
        proof {
            assert(rest[0] == ls@[i as int]@);
            assert(rest.drop_first() =~= all.skip(i + 1));
        }
        if eq_str(&t, START_MARKER) {
            in_managed = true;
        } else if eq_str(&t, END_MARKER) {
            in_managed = false;
        } else if in_managed && t.len() > 0 && t[0] != '#' {
            proof {
                lemma_union_insert(views(v@).to_set(), managed_patterns(all.skip(i + 1), true), t@);
            }
            insert_sorted(&mut v, t);
        }
        i = i + 1;
    }
    assert(all.skip(i as int) =~= Seq::<Seq<char>>::empty());
    assert(views(v@).to_set().union(Set::empty()) =~= views(v@).to_set());
    strings_of(&v)
}

proof fn lemma_union_insert(a: Set<Seq<char>>, b: Set<Seq<char>>, x: Seq<char>)
    ensures
        a.union(b.insert(x)) == a.insert(x).union(b),
{
    assert(a.union(b.insert(x)) =~= a.insert(x).union(b));
}

/// A gitignore's text without its managed sections.
pub fn remove_managed_section(content: &str) -> (r: String)
    ensures
        r@ == without_managed(content@),
{
    let cv = chars_of(content);
    let ls = split_lines(&cv);
    let ghost all = views(ls@);
    let mut out: Vec<Vec<char>> = Vec::new();
    let mut in_managed = false;
    let mut i: usize = 0;
    assert(all.skip(0) =~= all);
    assert(views(out@) + unmanaged_lines(all, false) =~= unmanaged_lines(all, false));
    while i < ls.len()
        invariant
            i <= ls.len(),
            all == views(ls@),
            views(out@) + unmanaged_lines(all.skip(i as int), in_managed) == unmanaged_lines(all, false),
        decreases ls.len() - i,
    {
        let t = trim_vec(&ls[i]);
        let ghost rest = all.skip(i as int);
        proof {
            assert(rest[0] == ls@[i as int]@);
            assert(rest.drop_first() =~= all.skip(i + 1));
        }
        if eq_str(&t, START_MARKER) {
            in_managed = true;
        } else if eq_str(&t, END_MARKER) {
            in_managed = false;
        } else if !in_managed {
            let ghost before = views(out@);
            out.push(crate::text::copy_vec(&ls[i]));
            proof {
                assert(views(out@) =~= before.push(ls@[i as int]@));
                assert(before.push(ls@[i as int]@) + unmanaged_lines(all.skip(i + 1), in_managed) =~= before + (seq![ls@[i as int]@] + unmanaged_lines(all.skip(i + 1), in_managed)));
            }
        }
        i = i + 1;
    }
    assert(all.skip(i as int) =~= Seq::<Seq<char>>::empty());
    assert(views(out@) + Seq::<Seq<char>>::empty() =~= views(out@));
    string_of(&concat_lines_exec(&out))
}

/// The new text of a gitignore holding `existing`, with the managed section
/// for `patterns` labelled with its source and time stamp.
pub fn gitignore_file_content(existing: &str, patterns: &Vec<String>, source_label: &str, stamp: &str) -> (r: String)
    ensures
        r@ == gitignore_content(existing@, strs(patterns@), source_label@, stamp@),
{
    let cleaned = chars_of(remove_managed_section(existing).as_str());
    let mut section: Vec<char> = Vec::new();
    if patterns.len() > 0 {
        let mut parts: Vec<Vec<char>> = Vec::new();
        let mut i: usize = 0;
        while i < patterns.len()
            invariant
                i <= patterns.len(),
                views(parts@) == strs(patterns@).take(i as int),
            decreases patterns.len() - i,
        {
            let ghost before = parts@;
            let x = chars_of(patterns[i].as_str());
            parts.push(x);
            proof {
                assert(views(parts@) =~= views(before).push(x@));
                assert(strs(patterns@).take(i + 1) =~= strs(patterns@).take(i as int).push(patterns@[i as int]@));
            }
            i = i + 1;
        }
        assert(strs(patterns@).take(i as int) =~= strs(patterns@));
        section = chars_of(START_MARKER);
        push_str(&mut section, "\n# Source: ");
        push_str(&mut section, source_label);
        push_str(&mut section, "\n# Updated: ");
        push_str(&mut section, stamp);
        push_str(&mut section, "\n");
        let joined = join_vec(&parts, &chars_of("\n"));
        push_all(&mut section, &joined);
        push_str(&mut section, "\n");
        push_str(&mut section, END_MARKER);
        push_str(&mut section, "\n");
    }
    assert(section@ =~= managed_section(strs(patterns@), source_label@, stamp@));
    let trimmed = trim_vec(&cleaned);
    let new_content = if trimmed.len() == 0 {
        if section.len() == 0 {
            Vec::new()
        } else {
            let mut n = section;
            push_str(&mut n, "\n# Encrypted files are safe to commit\n!*.enc\n");
            n
        }
    } else {
        let mut n = trim_end_vec(&cleaned);
        if section.len() > 0 {
            push_str(&mut n, "\n\n");
            push_all(&mut n, &section);
        }
        n
    };
    let result = trim_vec(&new_content);
    assert(result@ =~= gitignore_content(existing@, strs(patterns@), source_label@, stamp@));
    string_of(&result)
}

/// `strs(v)` holds `x`.
fn holds(v: &Vec<String>, x: &String) -> (b: bool)
    ensures
        b == strs(v@).contains(x@),
{
    let mut i: usize = 0;
    while i < v.len()
        invariant
            i <= v.len(),
            forall|j: int| 0 <= j < i ==> #[trigger] strs(v@)[j] != x@,
        decreases v.len() - i,
    {
        if v[i] == *x {
            assert(strs(v@)[i as int] == x@);
            return true;
        }
        i = i + 1;
    }
    false
}

/// The patterns of `a` that `b` lacks, in the order of `a`.
pub open spec fn missing_from(a: Seq<Seq<char>>, b: Seq<Seq<char>>) -> Seq<Seq<char>> {
    a.filter(|p: Seq<char>| !b.contains(p))
}

fn difference(a: &Vec<String>, b: &Vec<String>) -> (r: Vec<String>)
    ensures
        strs(r@) == missing_from(strs(a@), strs(b@)),
{
    let mut r: Vec<String> = Vec::new();
    let mut i: usize = 0;
    proof {
        reveal(Seq::filter);
        assert(strs(a@).take(0) =~= Seq::<Seq<char>>::empty());
    }
    while i < a.len()
        invariant
            i <= a.len(),
            strs(r@) == missing_from(strs(a@).take(i as int), strs(b@)),
        decreases a.len() - i,
    {
        let ghost before = strs(r@);
        proof {
            assert(strs(a@).take(i + 1).drop_last() =~= strs(a@).take(i as int));
            assert(strs(a@).take(i + 1).last() == a@[i as int]@);
            reveal(Seq::filter);
        }
        let keep = !holds(b, &a[i]);
        assert(missing_from(strs(a@).take(i + 1), strs(b@)) == if keep {
            missing_from(strs(a@).take(i as int), strs(b@)).push(a@[i as int]@)
        } else {
            missing_from(strs(a@).take(i as int), strs(b@))
        });
        if keep {
            r.push(a[i].clone());
            assert(strs(r@) =~= before.push(a@[i as int]@));
        } else {
            assert(strs(r@) =~= before);
        }
        i = i + 1;
    }
    assert(strs(a@).take(i as int) =~= strs(a@));
    r
}

/// `d` is the difference between the pattern lists `cfg` (asked for) and
/// `cur` (held).
pub open spec fn diff_between(d: GitignoreDiff, cfg: Seq<Seq<char>>, cur: Seq<Seq<char>>) -> bool {
    &&& strs(d.to_add@) == missing_from(cfg, cur)
    &&& strs(d.to_remove@) == missing_from(cur, cfg)
    &&& d.in_sync == (d.to_add.len() == 0 && d.to_remove.len() == 0)
}

/// The sorted patterns of the managed section of some gitignore text.
pub open spec fn managed_list(cur: Seq<Seq<char>>) -> bool {
    &&& sorted_unique(cur)
    &&& exists|c: Seq<char>| #[trigger] managed_patterns(lines(c), false) == cur.to_set()
}

/// `d` is the difference between the sorted patterns of `config` and the
/// sorted patterns of a gitignore's managed section.
pub open spec fn diff_against(d: GitignoreDiff, config: Set<Seq<char>>) -> bool {
    exists|cfg: Seq<Seq<char>>, cur: Seq<Seq<char>>| #[trigger] diff_between(d, cfg, cur)
        && sorted_unique(cfg) && cfg.to_set() == config && managed_list(cur)
}

/// What cleaning a gitignore writes: its trimmed text without managed
/// sections, when that differs from the trimmed text; nothing otherwise.
pub open spec fn spec_cleaned(c: Seq<char>) -> Option<Seq<char>> {
    if trim(without_managed(c)) != trim(c) {
        Some(trim(without_managed(c)))
    } else {
        None
    }
}

/// What cleaning a gitignore with content `content` writes, if anything.
pub fn cleaned_gitignore(content: &str) -> (r: Option<String>)
    ensures
        crate::pathstr::opt_text(r) == spec_cleaned(content@),
{
    let cleaned = chars_of(remove_managed_section(content).as_str());
    let cleaned_trim = trim_vec(&cleaned);
    let content_trim = trim_vec(&chars_of(content));
    if !eq_vec(&cleaned_trim, &content_trim) {
        Some(string_of(&cleaned_trim))
    } else {
        None
    }
}

/// Lines none of which is a marker are all kept.
proof fn lemma_unmanaged_keeps_all(ls: Seq<Seq<char>>)
    requires
        crate::text::none_trims_to(ls, START_MARKER@),
        crate::text::none_trims_to(ls, END_MARKER@),
    ensures
        unmanaged_lines(ls, false) == ls,
    decreases ls.len(),
{
    if ls.len() > 0 {
        let rest = ls.drop_first();
        assert forall|k: int| 0 <= k < rest.len() implies trim(#[trigger] rest[k]) != START_MARKER@ && trim(rest[k]) != END_MARKER@ by {
            assert(rest[k] == ls[k + 1]);
        }
        lemma_unmanaged_keeps_all(rest);
        assert(trim(ls[0]) != START_MARKER@ && trim(ls[0]) != END_MARKER@);
        assert(seq![ls[0]] + rest =~= ls);
    }
}

/// The lines a gitignore keeps outside its managed sections.
pub open spec fn kept_lines(c: Seq<char>) -> Seq<Seq<char>> {
    unmanaged_lines(lines(c), false)
}

/// Cleaning a gitignore again right after cleaning it finds nothing to
/// change: for a gitignore whose kept lines start and end without
/// whitespace (the first and last of them) and do not end in a carriage
/// return, the cleaned text cleans to itself.
pub proof fn lemma_clean_again_unchanged(c: Seq<char>)
    requires
        kept_lines(c).len() == 0 || (kept_lines(c)[0].len() > 0 && !crate::text::is_ws(kept_lines(c)[0][0])
            && kept_lines(c).last().len() > 0 && !crate::text::is_ws(kept_lines(c).last().last())),
        forall|k: int| 0 <= k < kept_lines(c).len() ==> (#[trigger] kept_lines(c)[k]).len() == 0 || kept_lines(c)[k].last() != '\r',
    ensures
        trim(without_managed(trim(without_managed(c)))) == trim(without_managed(c)),
        spec_cleaned(c) matches Some(t) ==> spec_cleaned(t) is None,
{
    let u = kept_lines(c);
    crate::text::lemma_lines_no_newline(c);
    lemma_unmanaged_lines(lines(c), false);
    let x = without_managed(c);
    if u.len() == 0 {
        assert(x =~= Seq::<char>::empty());
        assert(trim(x) =~= Seq::<char>::empty()) by {
            assert(crate::text::trim_start(x) =~= Seq::<char>::empty());
        }
        assert(lines(Seq::<char>::empty()) =~= Seq::<Seq<char>>::empty());
        assert(without_managed(Seq::<char>::empty()) =~= Seq::<char>::empty());
    } else {
        let j = join_text(u, seq!['\n']);
        crate::text::lemma_join_newline_concat(u);
        assert(x == j + seq!['\n']);
        // the joined lines start and end with their first and last char
        if u.len() == 1 {
            assert(j == u[0]);
        } else {
            crate::text::lemma_join_cons(u[0], u.drop_first(), seq!['\n']);
            assert(seq![u[0]] + u.drop_first() =~= u);
            assert(j[0] == u[0][0]);
            assert(j == join_text(u.drop_last(), seq!['\n']) + seq!['\n'] + u.last());
        }
        assert(j.len() > 0 && j[0] == u[0][0]);
        assert(j.last() == u.last().last());
        assert(crate::text::trim_start(j) == j);
        assert(trim_end(j) == j);
        assert(x =~= j.push('\n'));
        crate::text::lemma_trim_push_ws(j, '\n');
        assert(trim(x) == j);
        crate::application::envrc::lemma_lines_of_join(u);
        lemma_unmanaged_keeps_all(u);
        assert(without_managed(j) == x);
    }
}

/// Two strictly sorted pattern lists with the same patterns are the same
/// list.
proof fn lemma_sorted_same_set(a: Seq<Seq<char>>, b: Seq<Seq<char>>)
    requires
        sorted_unique(a),
        sorted_unique(b),
        a.to_set() == b.to_set(),
    ensures
        a == b,
    decreases a.len() + b.len(),
{
    if a.len() == 0 {
        if b.len() > 0 {
            assert(b.to_set().contains(b[0]));
            assert(!a.to_set().contains(b[0]));
        }
        assert(a =~= b);
    } else if b.len() == 0 {
        assert(a.to_set().contains(a[0]));
        assert(!b.to_set().contains(a[0]));
    } else {
        // the first elements are each the least of the common set
        assert(a.to_set().contains(a[0]));
        assert(b.to_set().contains(a[0]));
        let j = choose|j: int| 0 <= j < b.len() && b[j] == a[0];
        assert(b.to_set().contains(b[0]));
        assert(a.to_set().contains(b[0]));
        let i = choose|i: int| 0 <= i < a.len() && a[i] == b[0];
        if j > 0 {
            assert(crate::text::lex_lt(b[0], b[j]));
            if i > 0 {
                assert(crate::text::lex_lt(a[0], a[i]));
                crate::text::lemma_lex_trans(a[0], a[i], a[0]);
                crate::text::lemma_lex_total(a[0], a[0]);
            } else {
                crate::text::lemma_lex_total(a[0], a[0]);
            }
        }
        assert(a[0] == b[0]);
        let a1 = a.drop_first();
        let b1 = b.drop_first();
        assert forall|x: Seq<char>| a1.to_set().contains(x) <==> b1.to_set().contains(x) by {
            if a1.to_set().contains(x) {
                let k = choose|k: int| 0 <= k < a1.len() && a1[k] == x;
                assert(a[k + 1] == x);
                assert(crate::text::lex_lt(a[0], a[k + 1]));
                assert(b.to_set().contains(x));
                let m = choose|m: int| 0 <= m < b.len() && b[m] == x;
                if m == 0 {
                    crate::text::lemma_lex_total(x, x);
                }
                assert(b1[m - 1] == x);
            }
            if b1.to_set().contains(x) {
                let k = choose|k: int| 0 <= k < b1.len() && b1[k] == x;
                assert(b[k + 1] == x);
                assert(crate::text::lex_lt(b[0], b[k + 1]));
                assert(a.to_set().contains(x));
                let m = choose|m: int| 0 <= m < a.len() && a[m] == x;
                if m == 0 {
                    crate::text::lemma_lex_total(x, x);
                }
                assert(a1[m - 1] == x);
            }
        }
        assert(a1.to_set() =~= b1.to_set());
        lemma_sorted_same_set(a1, b1);
        assert(a =~= seq![a[0]] + a1);
        assert(b =~= seq![b[0]] + b1);
    }
}

/// A pattern list that holds every pattern of another misses none of it.
proof fn lemma_none_missing(a: Seq<Seq<char>>, b: Seq<Seq<char>>)
    requires
        forall|k: int| 0 <= k < a.len() ==> b.contains(#[trigger] a[k]),
    ensures
        missing_from(a, b).len() == 0,
{
    let pred = |p: Seq<char>| !b.contains(p);
    if missing_from(a, b).len() > 0 {
        a.lemma_filter_pred(pred, 0);
        let x = a.filter(pred)[0];
        assert(a.filter(pred).contains(x));
        a.lemma_filter_contains_rev(pred, x);
        let k = choose|k: int| 0 <= k < a.len() && a[k] == x;
        assert(b.contains(a[k]));
    }
}

/// The gitignore must be rewritten exactly when its managed patterns and the
/// config's differ as sets: a difference is out of sync when a pattern is
/// to be added or one to be removed, and in sync exactly when the two
/// pattern lists hold the same patterns.
pub proof fn law_in_sync_iff_same_patterns(d: GitignoreDiff, cfg: Seq<Seq<char>>, cur: Seq<Seq<char>>)
    requires
        diff_between(d, cfg, cur),
    ensures
        d.in_sync <==> cfg.to_set() == cur.to_set(),
        !d.in_sync <==> (exists|x: Seq<char>| cfg.contains(x) && !cur.contains(x)) || (exists|x: Seq<char>| cur.contains(x) && !cfg.contains(x)),
{
    lemma_missing_empty_iff(cfg, cur);
    lemma_missing_empty_iff(cur, cfg);
    if cfg.to_set() == cur.to_set() {
        assert forall|x: Seq<char>| cfg.contains(x) implies cur.contains(x) by {
            assert(cfg.to_set().contains(x));
        }
        assert forall|x: Seq<char>| cur.contains(x) implies cfg.contains(x) by {
            assert(cur.to_set().contains(x));
        }
    }
    if (forall|x: Seq<char>| cfg.contains(x) ==> cur.contains(x)) && (forall|x: Seq<char>| cur.contains(x) ==> cfg.contains(x)) {
        assert(cfg.to_set() =~= cur.to_set());
    }
}

/// Nothing is missing from `b` exactly when `b` holds every pattern of `a`.
proof fn lemma_missing_empty_iff(a: Seq<Seq<char>>, b: Seq<Seq<char>>)
    ensures
        missing_from(a, b).len() == 0 <==> forall|x: Seq<char>| a.contains(x) ==> b.contains(x),
{
    let pred = |p: Seq<char>| !b.contains(p);
    if forall|x: Seq<char>| a.contains(x) ==> b.contains(x) {
        assert forall|k: int| 0 <= k < a.len() implies b.contains(#[trigger] a[k]) by {
            assert(a.contains(a[k]));
        }
        lemma_none_missing(a, b);
    } else {
        let x = choose|x: Seq<char>| a.contains(x) && !b.contains(x);
        let k = choose|k: int| 0 <= k < a.len() && a[k] == x;
        a.filter_lemma(pred);
        assert(a.filter(pred).contains(a[k]));
    }
}

/// Whether a gitignore with difference `d` has to be rewritten.
pub fn needs_rewrite(d: &GitignoreDiff) -> (b: bool)
    ensures
        b == (d.to_add.len() > 0 || d.to_remove.len() > 0),
{
    d.to_add.len() > 0 || d.to_remove.len() > 0
}

/// Syncing again right after a sync finds nothing to do: once a gitignore
/// has been rewritten with the sorted config patterns, the patterns read
/// back from it differ from the config in nothing.
pub proof fn lemma_sync_again_in_sync(existing: Seq<char>, cfg: Seq<Seq<char>>, cur: Seq<Seq<char>>, label: Seq<char>, stamp: Seq<char>)
    requires
        forall|k: int| 0 <= k < cfg.len() ==> plain_pattern(#[trigger] cfg[k]),
        no_newline(label),
        no_newline(stamp),
        cur.to_set() == managed_patterns(lines(gitignore_content(existing, cfg, label, stamp)), false),
    ensures
        missing_from(cfg, cur).len() == 0,
        missing_from(cur, cfg).len() == 0,
{
    lemma_rewritten_gitignore_reads_back(existing, cfg, label, stamp);
    assert forall|k: int| 0 <= k < cfg.len() implies cur.contains(#[trigger] cfg[k]) by {
        assert(cfg.to_set().contains(cfg[k]));
        assert(cur.to_set().contains(cfg[k]));
    }
    assert forall|k: int| 0 <= k < cur.len() implies cfg.contains(#[trigger] cur[k]) by {
        assert(cur.to_set().contains(cur[k]));
        assert(cfg.to_set().contains(cur[k]));
    }
    lemma_none_missing(cfg, cur);
    lemma_none_missing(cur, cfg);
}

/// The difference between the patterns config asks for and those the
/// gitignore holds.
pub fn compute_diff(config: &Vec<String>, current: &Vec<String>) -> (r: GitignoreDiff)
    ensures
        strs(r.to_add@) == missing_from(strs(config@), strs(current@)),
        strs(r.to_remove@) == missing_from(strs(current@), strs(config@)),
        r.in_sync == (r.to_add.len() == 0 && r.to_remove.len() == 0),
{
    let to_add = difference(config, current);
    let to_remove = difference(current, config);
    let in_sync = to_add.len() == 0 && to_remove.len() == 0;
    GitignoreDiff { to_add, to_remove, in_sync }
}

/// Two pattern lists hold the same patterns in the same order.
fn same_patterns(a: &Vec<String>, b: &Vec<String>) -> (r: bool)
    ensures
        r == (strs(a@) == strs(b@)),
{
    if a.len() != b.len() {
        assert(strs(a@).len() != strs(b@).len());
        return false;
    }
    let mut i: usize = 0;
    while i < a.len()
        invariant
            i <= a.len(),
            a.len() == b.len(),
            forall|j: int| 0 <= j < i ==> strs(a@)[j] == strs(b@)[j],
        decreases a.len() - i,
    {
        if a[i] != b[i] {
            assert(strs(a@)[i as int] != strs(b@)[i as int]);
            return false;
        }
        i = i + 1;
    }
    assert(strs(a@) =~= strs(b@));
    true
}

/// The local time as `%Y-%m-%d %H:%M:%S` (`chrono::Local::now().format`).
/// It depends on the clock: nothing is stated of it.
#[verifier::external_body]
fn local_stamp() -> (r: String) {
    chrono::Local::now().format("%Y-%m-%d %H:%M:%S").to_string()
}

/// Gitignore management service.
pub struct GitignoreService<F: FileSystem> {
    pub fs: F,
    /// Global config (defaults and the user's config file only)
    pub global_settings: Settings,
}

impl<F: FileSystem> GitignoreService<F> {
    /// Create a new gitignore service.
    pub fn new(fs: F, global_settings: Settings) -> (r: Self)
        ensures
            r.fs == fs,
            r.global_settings == global_settings,
    {
        GitignoreService { fs, global_settings }
    }

    /// Patterns that should be in the global gitignore.
    pub fn global_patterns(&self) -> (r: Vec<String>)
        ensures
            sorted_unique(strs(r@)),
            strs(r@).to_set() == config_patterns(self.global_settings.sops),
    {
        patterns_from_config(&self.global_settings.sops)
    }

    /// Patterns that should be in a vault's gitignore; none when the vault
    /// has no local config.
    pub fn vault_patterns(vault_settings: Option<&Settings>) -> (r: Option<Vec<String>>)
        ensures
            r is Some <==> vault_settings is Some,
            r matches Some(p) ==> sorted_unique(strs(p@)) && strs(p@).to_set() == config_patterns(vault_settings->0.sops),
    {
        match vault_settings {
            Some(s) => Some(patterns_from_config(&s.sops)),
            None => None,
        }
    }

    /// The patterns in a gitignore's managed section (none when the file is
    /// missing).
    pub fn current_patterns(&self, gitignore_path: &str) -> (r: Result<Vec<String>, ApplicationError>)
        ensures
            r matches Ok(p) ==> managed_list(strs(p@)),
            r matches Err(e) ==> e is OperationFailed,
    {
        if !self.fs.path_exists(gitignore_path) {
            let none: Vec<String> = Vec::new();
            proof {
                let e = Seq::<char>::empty();
                assert(lines(e) == Seq::<Seq<char>>::empty());
                assert(managed_patterns(lines(e), false) =~= strs(none@).to_set());
            }
            return Ok(none);
        }
        match self.fs.read_to_string(gitignore_path) {
            Ok(c) => {
                let p = extract_managed_patterns(c.as_str());
                assert(managed_patterns(lines(c@), false) == strs(p@).to_set());
                Ok(p)
            },
            Err(e) => Err(io_failed(context2("read .gitignore: ", gitignore_path), e)),
        }
    }

    /// `<base_dir>/.gitignore`.
    pub fn global_gitignore_path(&self) -> (r: String)
        ensures
            r@ == join(self.global_settings.base_dir@, ".gitignore"@),
    {
        join_str(self.global_settings.base_dir.as_str(), ".gitignore")
    }

    /// `<vault>/.gitignore`.
    pub fn vault_gitignore_path(vault_dir: &str) -> (r: String)
        ensures
            r@ == join(vault_dir@, ".gitignore"@),
    {
        join_str(vault_dir, ".gitignore")
    }

    /// Sync status of the global gitignore and, for a vault with a local
    /// config, of the vault's.
    pub fn status(&self, vault: Option<&VaultConfig>) -> (r: Result<GitignoreStatus, ApplicationError>)
        ensures
            r matches Ok(st) ==> (st.vault is Some <==> (vault matches Some(vc) && vc.settings is Some)),
            r matches Ok(st) ==> st.global_path@ == join(self.global_settings.base_dir@, ".gitignore"@)
                && diff_against(st.global_diff, config_patterns(self.global_settings.sops)),
            r matches Ok(st) ==> (st.vault matches Some(vs) ==> (vault matches Some(vc) && vc.settings matches Some(vs_set)
                && vs.path@ == join(vc.dir@, ".gitignore"@) && diff_against(vs.diff, config_patterns(vs_set.sops)))),
            r matches Err(e) ==> e is OperationFailed,
    {
        let global_path = self.global_gitignore_path();
        let global_config = self.global_patterns();
        let global_current = match self.current_patterns(global_path.as_str()) {
            Ok(p) => p,
            Err(e) => return Err(e),
        };
        let global_diff = compute_diff(&global_config, &global_current);
        assert(diff_between(global_diff, strs(global_config@), strs(global_current@)));
        let vault_status = match vault {
            Some(vc) => match Self::vault_patterns(vc.settings.as_ref()) {
                Some(config) => {
                    let path = Self::vault_gitignore_path(vc.dir.as_str());
                    let current = match self.current_patterns(path.as_str()) {
                        Ok(p) => p,
                        Err(e) => return Err(e),
                    };
                    let diff = compute_diff(&config, &current);
                    assert(diff_between(diff, strs(config@), strs(current@)));
                    Some(VaultGitignoreStatus { path, diff })
                },
                None => None,
            },
            None => None,
        };
        Ok(GitignoreStatus { global_path, global_diff, vault: vault_status })
    }

    /// The global gitignore holds exactly the patterns of the global config.
    pub fn is_global_synced(&self) -> (r: Result<bool, ApplicationError>)
        ensures
            r matches Ok(b) ==> exists|cur: Seq<Seq<char>>| #[trigger] managed_list(cur) && (b <==> cur.to_set() == config_patterns(self.global_settings.sops)),
            r matches Err(e) ==> e is OperationFailed,
    {
        let global_path = self.global_gitignore_path();
        let config = self.global_patterns();
        let current = match self.current_patterns(global_path.as_str()) {
            Ok(p) => p,
            Err(e) => return Err(e),
        };
        let b = same_patterns(&config, &current);
        proof {
            let cur = strs(current@);
            let cfg = strs(config@);
            assert(managed_list(cur));
            if cur.to_set() == config_patterns(self.global_settings.sops) {
                lemma_sorted_same_set(cfg, cur);
            }
            assert(b <==> cur.to_set() == config_patterns(self.global_settings.sops));
        }
        Ok(b)
    }

    /// The global gitignore and the vault's (when it has a local config) are
    /// in sync.
    pub fn is_synced(&self, vault: Option<&VaultConfig>) -> (r: Result<bool, ApplicationError>) {
        let status = match self.status(vault) {
            Ok(s) => s,
            Err(e) => return Err(e),
        };
        let vault_synced = match &status.vault {
            Some(v) => v.diff.in_sync,
            None => true,
        };
        Ok(status.global_diff.in_sync && vault_synced)
    }

    /// Rewrite a gitignore with the managed section for `patterns`,
    /// creating its directory when needed.
    pub fn update_gitignore_file(&self, gitignore_path: &str, patterns: &Vec<String>, source_label: &str) -> (r: Result<(), ApplicationError>)
        ensures
            r matches Err(e) ==> e is OperationFailed,
    {
        let existing = if self.fs.path_exists(gitignore_path) {
            match self.fs.read_to_string(gitignore_path) {
                Ok(c) => c,
                Err(e) => return Err(io_failed(context2("read .gitignore: ", gitignore_path), e)),
            }
        } else {
            String::new()
        };
        let stamp = local_stamp();
        let new_content = gitignore_file_content(existing.as_str(), patterns, source_label, stamp.as_str());
        if let Some(parent) = parent_str(gitignore_path) {
            if !self.fs.path_exists(parent.as_str()) {
                match self.fs.create_dir_all(parent.as_str()) {
                    Ok(()) => {},
                    Err(e) => return Err(io_failed(context2("create directory: ", parent.as_str()), e)),
                }
            }
        }
        match self.fs.write(gitignore_path, new_content.as_str()) {
            Ok(()) => Ok(()),
            Err(e) => Err(io_failed(context2("write .gitignore: ", gitignore_path), e)),
        }
    }

    /// Sync the global gitignore: rewrite it when it is out of sync; returns
    /// the difference found.
    pub fn sync_global(&self) -> (r: Result<GitignoreDiff, ApplicationError>)
        ensures
            r matches Ok(d) ==> diff_against(d, config_patterns(self.global_settings.sops)),
            r matches Err(e) ==> e is OperationFailed,
    {
        let global_path = self.global_gitignore_path();
        let patterns = self.global_patterns();
        let current = match self.current_patterns(global_path.as_str()) {
            Ok(p) => p,
            Err(e) => return Err(e),
        };
        let diff = compute_diff(&patterns, &current);
        assert(diff_between(diff, strs(patterns@), strs(current@)));
        if needs_rewrite(&diff) {
            match self.update_gitignore_file(global_path.as_str(), &patterns, "global config") {
                Ok(()) => {},
                Err(e) => return Err(e),
            }
        }
        Ok(diff)
    }

    /// Sync a vault's gitignore when the vault has a local config.
    pub fn sync_vault(&self, vault: &VaultConfig) -> (r: Result<Option<GitignoreDiff>, ApplicationError>)
        ensures
            r matches Ok(d) ==> (d is Some <==> vault.settings is Some),
    {
        match Self::vault_patterns(vault.settings.as_ref()) {
            Some(patterns) => {
                let path = Self::vault_gitignore_path(vault.dir.as_str());
                let current = match self.current_patterns(path.as_str()) {
                    Ok(p) => p,
                    Err(e) => return Err(e),
                };
                let diff = compute_diff(&patterns, &current);
                if needs_rewrite(&diff) {
                    match self.update_gitignore_file(path.as_str(), &patterns, "vault-local config") {
                        Ok(()) => {},
                        Err(e) => return Err(e),
                    }
                }
                Ok(Some(diff))
            },
            None => Ok(None),
        }
    }

    /// Sync the global gitignore, then the vault's.
    pub fn sync_all(&self, vault: Option<&VaultConfig>) -> (r: Result<(GitignoreDiff, Option<GitignoreDiff>), ApplicationError>)
        ensures
            r matches Ok((_, d)) ==> (d is Some ==> vault is Some),
    {
        let global_diff = match self.sync_global() {
            Ok(d) => d,
            Err(e) => return Err(e),
        };
        let vault_diff = match vault {
            Some(vc) => match self.sync_vault(vc) {
                Ok(d) => d,
                Err(e) => return Err(e),
            },
            None => None,
        };
        Ok((global_diff, vault_diff))
    }

    /// Remove the managed section of a gitignore; `true` when the file
    /// changed (beyond surrounding whitespace).
    pub fn clean_gitignore_file(&self, gitignore_path: &str) -> (r: Result<bool, ApplicationError>)
        ensures
            r matches Err(e) ==> e is OperationFailed,
    {
        if !self.fs.path_exists(gitignore_path) {
            return Ok(false);
        }
        let content = match self.fs.read_to_string(gitignore_path) {
            Ok(c) => c,
            Err(e) => return Err(io_failed(context2("read .gitignore: ", gitignore_path), e)),
        };
        match cleaned_gitignore(content.as_str()) {
            Some(cleaned) => match self.fs.write(gitignore_path, cleaned.as_str()) {
                Ok(()) => Ok(true),
                Err(e) => Err(io_failed(context2("write .gitignore: ", gitignore_path), e)),
            },
            None => Ok(false),
        }
    }

    /// Clean the managed section from the global gitignore.
    pub fn clean_global(&self) -> (r: Result<bool, ApplicationError>)
        ensures
            r matches Err(e) ==> e is OperationFailed,
    {
        let global_path = self.global_gitignore_path();
        self.clean_gitignore_file(global_path.as_str())
    }

    /// Clean the managed section from a vault's gitignore.
    pub fn clean_vault(&self, vault_dir: &str) -> (r: Result<bool, ApplicationError>)
        ensures
            r matches Err(e) ==> e is OperationFailed,
    {
        let path = Self::vault_gitignore_path(vault_dir);
        self.clean_gitignore_file(path.as_str())
    }

    /// Clean the managed sections from the global gitignore and the vault's.
    pub fn clean_all(&self, vault_dir: Option<&str>) -> (r: Result<(bool, bool), ApplicationError>)
        ensures
            r matches Ok((_, v)) ==> (v ==> vault_dir is Some),
    {
        let global_cleaned = match self.clean_global() {
            Ok(b) => b,
            Err(e) => return Err(e),
        };
        let vault_cleaned = match vault_dir {
            Some(vd) => match self.clean_vault(vd) {
                Ok(b) => b,
                Err(e) => return Err(e),
            },
            None => false,
        };
        Ok((global_cleaned, vault_cleaned))
    }
}

} // verus!
