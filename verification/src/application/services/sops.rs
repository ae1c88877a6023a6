//! SOPS encryption and decryption of the files that match the configured
//! patterns. Encrypted files carry the hash of their plaintext in their name
//! (`{name}.{hash8}.enc`), which tells a current encryption from a stale one.
use vstd::prelude::*;

use crate::application::envrc::context2;
use crate::application::error::{detected, io_failed, ApplicationError, ErrorSource, IoKind};
use crate::application::hash::{
    encrypted_filename, file_hash, is_old_enc_format, old_enc_format, parse_encrypted_filename,
    parsed_encrypted,
};
use crate::config::{strs, Settings};
use crate::infrastructure::traits::{CommandRunner, FileSystem};
use crate::infrastructure::walk::walk_dir;
use crate::pathstr::{
    extension, extension_vec, file_name, file_name_str, join, join_str, opt_text, parent,
    parent_str,
};
use crate::text::{chars_of, ends_with, ends_with_str, eq_str, slice, starts_with_str, string_of};

verus! {

/// A plaintext whose encrypted version no longer matches it.
#[derive(Debug)]
pub struct StaleFile {
    pub plaintext: String,
    pub old_encrypted: String,
    pub old_hash: String,
    pub new_hash: String,
}

/// Where each file under a directory stands with respect to encryption.
#[derive(Debug)]
pub struct EncryptionStatus {
    /// Plaintext files without a (new-format) encrypted version
    pub pending_encrypt: Vec<String>,
    /// Plaintext files whose encrypted version has another hash
    pub stale: Vec<StaleFile>,
    /// Plaintext files with an encrypted version of the same hash
    pub current: Vec<String>,
    /// Encrypted files without a plaintext
    pub orphaned: Vec<String>,
}

impl EncryptionStatus {
    /// Some file is waiting for its first encryption or is stale.
    pub fn needs_encryption(&self) -> (b: bool)
        ensures
            b == (self.pending_encrypt.len() > 0 || self.stale.len() > 0),
    {
        self.pending_encrypt.len() > 0 || self.stale.len() > 0
    }
}

/// The encrypted files found for one plaintext path.
#[derive(Debug)]
pub struct EncGroup {
    pub plaintext: String,
    pub files: Vec<String>,
}

// ------------------------------------------------------------------
// Which files are in scope
// ------------------------------------------------------------------

/// A file is in scope when its name is one of `names` or its extension one
/// of `exts` (both case-sensitive).
pub open spec fn in_scope(p: Seq<char>, exts: Seq<Seq<char>>, names: Seq<Seq<char>>) -> bool {
    let name = match file_name(p) {
        Some(n) => n,
        None => seq![],
    };
    names.contains(name) || (extension(p) matches Some(e) && exts.contains(e))
}

fn holds_text(v: &[String], x: &Vec<char>) -> (b: bool)
    ensures
        b == strs(v@).contains(x@),
{
    let mut i: usize = 0;
    while i < v.len()
        invariant
            i <= v.len(),
            forall|j: int| 0 <= j < i ==> #[trigger] strs(v@)[j] != x@,
        decreases v.len() - i,
    {
        if eq_str(x, v[i].as_str()) {
            assert(strs(v@)[i as int] == x@);
            return true;
        }
        i = i + 1;
    }
    false
}

/// The paths in scope, in order.
pub fn select_matching(paths: &Vec<String>, extensions: &[String], filenames: &[String]) -> (r: Vec<String>)
    ensures
        strs(r@) == strs(paths@).filter(|p: Seq<char>| in_scope(p, strs(extensions@), strs(filenames@))),
{
    let ghost pred = |p: Seq<char>| in_scope(p, strs(extensions@), strs(filenames@));
    let mut r: Vec<String> = Vec::new();
    let mut i: usize = 0;
    proof {
        reveal(Seq::filter);
        assert(strs(paths@).take(0) =~= Seq::<Seq<char>>::empty());
    }
    while i < paths.len()
        invariant
            i <= paths.len(),
            pred == (|p: Seq<char>| in_scope(p, strs(extensions@), strs(filenames@))),
            strs(r@) == strs(paths@).take(i as int).filter(pred),
        decreases paths.len() - i,
    {
        let pv = chars_of(paths[i].as_str());
        let name = match crate::pathstr::file_name_vec(&pv) {
            Some(n) => n,
            None => Vec::new(),
        };
        let mut keep = holds_text(filenames, &name);
        if !keep {
            keep = match extension_vec(&pv) {
                Some(e) => holds_text(extensions, &e),
                None => false,
            };
        }
        proof {
            reveal(Seq::filter);
            assert(strs(paths@).take(i + 1).drop_last() =~= strs(paths@).take(i as int));
            assert(strs(paths@).take(i + 1).last() == paths@[i as int]@);
            assert(keep == pred(paths@[i as int]@));
        }
        let ghost before = strs(r@);
        if keep {
            r.push(paths[i].clone());
            assert(strs(r@) =~= before.push(paths@[i as int]@));
        } else {
            assert(strs(r@) =~= before);
        }
        i = i + 1;
    }
    assert(strs(paths@).take(i as int) =~= strs(paths@));
    r
}

/// The plaintext an encrypted file stands for, next to it: `{name}` of
/// `{name}.{hash8}.enc`, or of an old-format `{name}.enc`.
pub open spec fn enc_plaintext(p: Seq<char>, dir: Seq<char>) -> Option<Seq<char>> {
    let d = match parent(p) {
        Some(d) => d,
        None => dir,
    };
    match parsed_encrypted(p) {
        Some((name, _)) => Some(join(d, name)),
        None => if old_enc_format(p) {
            let f = file_name(p).unwrap();
            Some(join(d, f.take(f.len() - 4)))
        } else {
            None
        },
    }
}

/// The plaintext an encrypted file stands for.
pub fn enc_plaintext_path(p: &str, dir: &str) -> (r: Option<String>)
    ensures
        opt_text(r) == enc_plaintext(p@, dir@),
{
    let d = match parent_str(p) {
        Some(d) => d,
        None => dir.to_owned(),
    };
    match parse_encrypted_filename(p) {
        Some((name, _)) => Some(join_str(d.as_str(), name.as_str())),
        None => if is_old_enc_format(p) {
            let f = chars_of(file_name_str(p).unwrap().as_str());
            let stem = slice(&f, 0, f.len() - 4);
            assert(stem@ =~= f@.take(f@.len() - 4));
            Some(join_str(d.as_str(), string_of(&stem).as_str()))
        } else {
            None
        },
    }
}

// ------------------------------------------------------------------
// Categorising plaintext files
// ------------------------------------------------------------------

/// The encrypted files of the first group for `key`.
pub open spec fn group_files(groups: Seq<(Seq<char>, Seq<Seq<char>>)>, key: Seq<char>) -> Option<Seq<Seq<char>>>
    decreases groups.len(),
{
    if groups.len() == 0 {
        None
    } else if groups[0].0 == key {
        Some(groups[0].1)
    } else {
        group_files(groups.drop_first(), key)
    }
}

/// The hash in a new-format encrypted file name.
pub open spec fn enc_hash(f: Seq<char>) -> Option<Seq<char>> {
    match parsed_encrypted(f) {
        Some((_, h)) => Some(h),
        None => None,
    }
}

/// Some encrypted file carries `hash`.
pub open spec fn has_current(files: Seq<Seq<char>>, hash: Seq<char>) -> bool {
    exists|i: int| 0 <= i < files.len() && enc_hash(#[trigger] files[i]) == Some(hash)
}

/// The last encrypted file with another hash, and that hash.
pub open spec fn last_stale(files: Seq<Seq<char>>, hash: Seq<char>) -> Option<(Seq<char>, Seq<char>)>
    decreases files.len(),
{
    if files.len() == 0 {
        None
    } else {
        match enc_hash(files.last()) {
            Some(h) => if h != hash {
                Some((files.last(), h))
            } else {
                last_stale(files.drop_last(), hash)
            },
            None => last_stale(files.drop_last(), hash),
        }
    }
}

/// A plaintext `(path, hash)` with a current encryption.
pub open spec fn current_of(groups: Seq<(Seq<char>, Seq<Seq<char>>)>, e: (Seq<char>, Seq<char>)) -> Option<Seq<char>> {
    match group_files(groups, e.0) {
        Some(fs) => if has_current(fs, e.1) {
            Some(e.0)
        } else {
            None
        },
        None => None,
    }
}

/// A plaintext `(path, hash)` whose encryption is stale:
/// `(plaintext, old encrypted file, old hash, new hash)`.
pub open spec fn stale_of(groups: Seq<(Seq<char>, Seq<Seq<char>>)>, e: (Seq<char>, Seq<char>)) -> Option<(Seq<char>, Seq<char>, Seq<char>, Seq<char>)> {
    match group_files(groups, e.0) {
        Some(fs) => if has_current(fs, e.1) {
            None
        } else {
            match last_stale(fs, e.1) {
                Some((f, h)) => Some((e.0, f, h, e.1)),
                None => None,
            }
        },
        None => None,
    }
}

/// A plaintext `(path, hash)` that is neither current nor stale.
pub open spec fn pending_of(groups: Seq<(Seq<char>, Seq<Seq<char>>)>, e: (Seq<char>, Seq<char>)) -> Option<Seq<char>> {
    if current_of(groups, e) is None && stale_of(groups, e) is None {
        Some(e.0)
    } else {
        None
    }
}

/// Every plaintext file falls in exactly one category: current, stale or
/// pending.
pub proof fn lemma_categories_partition(groups: Seq<(Seq<char>, Seq<Seq<char>>)>, e: (Seq<char>, Seq<char>))
    ensures
        current_of(groups, e) is Some || stale_of(groups, e) is Some || pending_of(groups, e) is Some,
        current_of(groups, e) is Some ==> stale_of(groups, e) is None && pending_of(groups, e) is None,
        stale_of(groups, e) is Some ==> current_of(groups, e) is None && pending_of(groups, e) is None,
{
}

/// A plaintext is current exactly when one of its encrypted files carries
/// its hash, and pending when no encrypted file of it carries any hash.
pub proof fn lemma_current_iff_hash_matches(groups: Seq<(Seq<char>, Seq<Seq<char>>)>, e: (Seq<char>, Seq<char>))
    ensures
        current_of(groups, e) is Some <==> (group_files(groups, e.0) matches Some(fs) && has_current(fs, e.1)),
        group_files(groups, e.0) is None ==> pending_of(groups, e) == Some(e.0),
{
}

/// The texts of `(path, hash)` pairs.
pub open spec fn pairs_view(v: Seq<(String, String)>) -> Seq<(Seq<char>, Seq<char>)> {
    v.map_values(|e: (String, String)| (e.0@, e.1@))
}

/// The texts of encrypted-file groups.
pub open spec fn groups_view(v: Seq<EncGroup>) -> Seq<(Seq<char>, Seq<Seq<char>>)> {
    v.map_values(|g: EncGroup| (g.plaintext@, strs(g.files@)))
}

/// The texts of stale files.
pub open spec fn stale_view(v: Seq<StaleFile>) -> Seq<(Seq<char>, Seq<char>, Seq<char>, Seq<char>)> {
    v.map_values(|s: StaleFile| (s.plaintext@, s.old_encrypted@, s.old_hash@, s.new_hash@))
}

/// `st` sorts the plaintext files `pv` (with their hashes) into current,
/// stale and pending by the encrypted groups `gv`.
pub open spec fn categorized(st: EncryptionStatus, pv: Seq<(Seq<char>, Seq<char>)>, gv: Seq<(Seq<char>, Seq<Seq<char>>)>) -> bool {
    &&& strs(st.current@) == pv.filter_map(|e: (Seq<char>, Seq<char>)| current_of(gv, e))
    &&& stale_view(st.stale@) == pv.filter_map(|e: (Seq<char>, Seq<char>)| stale_of(gv, e))
    &&& strs(st.pending_encrypt@) == pv.filter_map(|e: (Seq<char>, Seq<char>)| pending_of(gv, e))
}

/// `st` sorts some plaintext files into current, stale and pending by some
/// encrypted groups.
pub open spec fn is_categorization(st: EncryptionStatus) -> bool {
    exists|pv: Seq<(Seq<char>, Seq<char>)>, gv: Seq<(Seq<char>, Seq<Seq<char>>)>| #[trigger] categorized(st, pv, gv)
}

/// `d` is the list of current plaintext files of some categorization.
pub open spec fn current_files(d: Seq<Seq<char>>) -> bool {
    exists|st: EncryptionStatus| #[trigger] is_categorization(st) && strs(st.current@) == d
}

/// The group for `key`, by index.
fn find_group(groups: &Vec<EncGroup>, key: &String) -> (r: Option<usize>)
    ensures
        match r {
            Some(k) => k < groups.len() && group_files(groups_view(groups@), key@) == Some(strs(groups@[k as int].files@)),
            None => group_files(groups_view(groups@), key@) is None,
        },
{
    let ghost gv = groups_view(groups@);
    let mut i: usize = 0;
    assert(gv.skip(0) =~= gv);
    while i < groups.len()
        invariant
            i <= groups.len(),
            gv == groups_view(groups@),
            group_files(gv, key@) == group_files(gv.skip(i as int), key@),
        decreases groups.len() - i,
    {
        assert(gv.skip(i as int)[0] == gv[i as int]);
        assert(gv.skip(i as int).drop_first() =~= gv.skip(i + 1));
        if groups[i].plaintext == *key {
            return Some(i);
        }
        i = i + 1;
    }
    None
}

/// Whether some file carries `hash`, and the last one that carries another.
fn scan_group(files: &Vec<String>, hash: &String) -> (r: (bool, Option<(String, String)>))
    ensures
        r.0 == has_current(strs(files@), hash@),
        match r.1 {
            Some((f, h)) => last_stale(strs(files@), hash@) == Some((f@, h@)),
            None => last_stale(strs(files@), hash@) is None,
        },
{
    let ghost fv = strs(files@);
    let mut found = false;
    let mut stale: Option<(String, String)> = None;
    let mut i: usize = 0;
    assert(fv.take(0) =~= Seq::<Seq<char>>::empty());
    while i < files.len()
        invariant
            i <= files.len(),
            fv == strs(files@),
            found == exists|j: int| 0 <= j < i && enc_hash(#[trigger] fv[j]) == Some(hash@),
            match stale {
                Some((f, h)) => last_stale(fv.take(i as int), hash@) == Some((f@, h@)),
                None => last_stale(fv.take(i as int), hash@) is None,
            },
        decreases files.len() - i,
    {
        proof {
            assert(fv.take(i + 1).drop_last() =~= fv.take(i as int));
            assert(fv.take(i + 1).last() == fv[i as int]);
        }
        match parse_encrypted_filename(files[i].as_str()) {
            Some((_, enc_hash_value)) => {
                if enc_hash_value == *hash {
                    found = true;
                } else {
                    stale = Some((files[i].clone(), enc_hash_value));
                }
            },
            None => {},
        }
        i = i + 1;
    }
    assert(fv.take(i as int) =~= fv);
    (found, stale)
}

/// Sort plaintext files `(path, hash)` into current, stale and pending by
/// their encrypted versions, and list the encrypted files whose plaintext
/// is missing.
pub fn categorize(plaintext: &Vec<(String, String)>, groups: &Vec<EncGroup>) -> (r: EncryptionStatus)
    ensures
        strs(r.current@) == pairs_view(plaintext@).filter_map(|e: (Seq<char>, Seq<char>)| current_of(groups_view(groups@), e)),
        stale_view(r.stale@) == pairs_view(plaintext@).filter_map(|e: (Seq<char>, Seq<char>)| stale_of(groups_view(groups@), e)),
        strs(r.pending_encrypt@) == pairs_view(plaintext@).filter_map(|e: (Seq<char>, Seq<char>)| pending_of(groups_view(groups@), e)),
        forall|f: Seq<char>| strs(r.orphaned@).contains(f) <==> exists|k: int| 0 <= k < groups.len() && #[trigger] orphaned_group(plaintext@, groups@[k]) && strs(groups@[k].files@).contains(f),
        categorized(r, pairs_view(plaintext@), groups_view(groups@)),
{
    let ghost gv = groups_view(groups@);
    let ghost pv = pairs_view(plaintext@);
    let ghost fc = |e: (Seq<char>, Seq<char>)| current_of(gv, e);
    let ghost fs = |e: (Seq<char>, Seq<char>)| stale_of(gv, e);
    let ghost fp = |e: (Seq<char>, Seq<char>)| pending_of(gv, e);
    let mut current: Vec<String> = Vec::new();
    let mut stale: Vec<StaleFile> = Vec::new();
    let mut pending: Vec<String> = Vec::new();
    let mut i: usize = 0;
    assert(pv.take(0) =~= Seq::<(Seq<char>, Seq<char>)>::empty());
    while i < plaintext.len()
        invariant
            i <= plaintext.len(),
            gv == groups_view(groups@),
            pv == pairs_view(plaintext@),
            fc == (|e: (Seq<char>, Seq<char>)| current_of(gv, e)),
            fs == (|e: (Seq<char>, Seq<char>)| stale_of(gv, e)),
            fp == (|e: (Seq<char>, Seq<char>)| pending_of(gv, e)),
            strs(current@) == pv.take(i as int).filter_map(fc),
            stale_view(stale@) == pv.take(i as int).filter_map(fs),
            strs(pending@) == pv.take(i as int).filter_map(fp),
        decreases plaintext.len() - i,
    {
        let path = &plaintext[i].0;
        let hash = &plaintext[i].1;
        let ghost e = pv[i as int];
        proof {
            assert(pv.take(i + 1).drop_last() =~= pv.take(i as int));
            assert(pv.take(i + 1).last() == e);
            assert(e == (path@, hash@));
        }
        let ghost c0 = current@;
        let ghost s0 = stale@;
        let ghost p0 = pending@;
        match find_group(groups, path) {
            Some(k) => {
                let (found, last) = scan_group(&groups[k].files, hash);
                if found {
                    current.push(path.clone());
                    assert(strs(current@) =~= strs(c0).push(path@));
                } else {
                    match last {
                        Some((f, h)) => {
                            stale.push(StaleFile { plaintext: path.clone(), old_encrypted: f, old_hash: h, new_hash: hash.clone() });
                            assert(stale_view(stale@) =~= stale_view(s0).push(stale_view(stale@).last()));
                        },
                        None => {
                            pending.push(path.clone());
                            assert(strs(pending@) =~= strs(p0).push(path@));
                        },
                    }
                }
            },
            None => {
                pending.push(path.clone());
                assert(strs(pending@) =~= strs(p0).push(path@));
            },
        }
        proof {
            assert(strs(current@) == pv.take(i + 1).filter_map(fc));
            assert(stale_view(stale@) == pv.take(i + 1).filter_map(fs));
            assert(strs(pending@) == pv.take(i + 1).filter_map(fp));
        }
        i = i + 1;
    }
    assert(pv.take(i as int) =~= pv);
    let orphaned = orphans(plaintext, groups);
    EncryptionStatus { pending_encrypt: pending, stale, current, orphaned }
}

/// The paths of `(path, hash)` pairs.
pub open spec fn plaintext_keys(v: Seq<(String, String)>) -> Seq<Seq<char>> {
    strs(v.map_values(|e: (String, String)| e.0))
}

/// No plaintext is listed for the group.
pub open spec fn orphaned_group(plaintext: Seq<(String, String)>, g: EncGroup) -> bool {
    !plaintext_keys(plaintext).contains(g.plaintext@)
}

/// The plaintext path is one of `plaintext`.
fn has_plaintext(plaintext: &Vec<(String, String)>, key: &String) -> (b: bool)
    ensures
        b == plaintext_keys(plaintext@).contains(key@),
{
    let ghost keys = plaintext_keys(plaintext@);
    let mut i: usize = 0;
    while i < plaintext.len()
        invariant
            i <= plaintext.len(),
            keys == plaintext_keys(plaintext@),
            forall|j: int| 0 <= j < i ==> #[trigger] keys[j] != key@,
        decreases plaintext.len() - i,
    {
        if plaintext[i].0 == *key {
            assert(keys[i as int] == key@);
            return true;
        }
        i = i + 1;
    }
    false
}

proof fn lemma_concat_contains(a: Seq<Seq<char>>, b: Seq<Seq<char>>, f: Seq<char>)
    ensures
        (a + b).contains(f) <==> a.contains(f) || b.contains(f),
{
    if (a + b).contains(f) {
        let x = choose|x: int| 0 <= x < (a + b).len() && #[trigger] (a + b)[x] == f;
        if x < a.len() {
            assert(a[x] == f);
        } else {
            assert(b[x - a.len()] == f);
        }
    }
    if a.contains(f) {
        let x = choose|x: int| 0 <= x < a.len() && #[trigger] a[x] == f;
        assert((a + b)[x] == f);
    }
    if b.contains(f) {
        let x = choose|x: int| 0 <= x < b.len() && #[trigger] b[x] == f;
        assert((a + b)[x + a.len()] == f);
    }
}

/// The encrypted files of the groups whose plaintext is not listed.
fn orphans(plaintext: &Vec<(String, String)>, groups: &Vec<EncGroup>) -> (r: Vec<String>)
    ensures
        forall|f: Seq<char>| strs(r@).contains(f) <==> exists|k: int| 0 <= k < groups.len() && #[trigger] orphaned_group(plaintext@, groups@[k]) && strs(groups@[k].files@).contains(f),
{
    let ghost keys = plaintext_keys(plaintext@);
    let mut r: Vec<String> = Vec::new();
    let mut k: usize = 0;
    while k < groups.len()
        invariant
            k <= groups.len(),
            keys == plaintext_keys(plaintext@),
            forall|f: Seq<char>| strs(r@).contains(f) <==> exists|q: int| 0 <= q < k && #[trigger] orphaned_group(plaintext@, groups@[q]) && strs(groups@[q].files@).contains(f),
        decreases groups.len() - k,
    {
        if !has_plaintext(plaintext, &groups[k].plaintext) {
            let files = &groups[k].files;
            let ghost r0 = strs(r@);
            let mut j: usize = 0;
            assert(r0 + strs(files@).take(0) =~= r0);
            while j < files.len()
                invariant
                    j <= files.len(),
                    k < groups.len(),
                    files == &groups@[k as int].files,
                    strs(r@) == r0 + strs(files@).take(j as int),
                decreases files.len() - j,
            {
                let ghost before = strs(r@);
                r.push(files[j].clone());
                proof {
                    assert(strs(r@) =~= before.push(files@[j as int]@));
                    assert(r0 + strs(files@).take(j + 1) =~= (r0 + strs(files@).take(j as int)).push(files@[j as int]@));
                }
                j = j + 1;
            }
            proof {
                assert(strs(files@).take(j as int) =~= strs(files@));
                assert(orphaned_group(plaintext@, groups@[k as int]));
                assert forall|f: Seq<char>| strs(r@).contains(f) <==> exists|q: int| 0 <= q < k + 1 && #[trigger] orphaned_group(plaintext@, groups@[q]) && strs(groups@[q].files@).contains(f) by {
                    lemma_concat_contains(r0, strs(files@), f);
                    if exists|q: int| 0 <= q < k + 1 && #[trigger] orphaned_group(plaintext@, groups@[q]) && strs(groups@[q].files@).contains(f) {
                        let q = choose|q: int| 0 <= q < k + 1 && #[trigger] orphaned_group(plaintext@, groups@[q]) && strs(groups@[q].files@).contains(f);
                        if q < k {
                            assert(r0.contains(f));
                        } else {
                            assert(strs(files@).contains(f));
                        }
                    }
                }
            }
        } else {
            proof {
                assert forall|f: Seq<char>| strs(r@).contains(f) <==> exists|q: int| 0 <= q < k + 1 && #[trigger] orphaned_group(plaintext@, groups@[q]) && strs(groups@[q].files@).contains(f) by {
                    if exists|q: int| 0 <= q < k + 1 && #[trigger] orphaned_group(plaintext@, groups@[q]) && strs(groups@[q].files@).contains(f) {
                        let q = choose|q: int| 0 <= q < k + 1 && #[trigger] orphaned_group(plaintext@, groups@[q]) && strs(groups@[q].files@).contains(f);
                        assert(q < k);
                    }
                }
            }
        }
        k = k + 1;
    }
    r
}

// ------------------------------------------------------------------
// sops command lines
// ------------------------------------------------------------------

/// The file is in dotenv format (`.env` extension).
pub open spec fn is_dotenv(p: Seq<char>) -> bool {
    extension(p) == Some("env"@)
}

/// The key `sops -e` is given: the GPG key when there is one, else the age
/// key; the flag is `--age` whenever an age key is configured.
pub open spec fn encrypt_key(gpg: Option<Seq<char>>, age: Option<Seq<char>>) -> Option<(Seq<char>, Seq<char>)> {
    let key = match gpg {
        Some(g) => Some(g),
        None => age,
    };
    match key {
        Some(k) => Some((if age is Some { "--age"@ } else { "--pgp"@ }, k)),
        None => None,
    }
}

/// `out` is the hash-named encrypted file of `input` for some content.
pub open spec fn encrypted_from(out: Seq<char>, input: Seq<char>) -> bool {
    exists|c: Seq<u8>| out == crate::application::hash::spec_encrypted_filename(input, #[trigger] crate::application::hash::spec_content_hash(c))
}

/// The plaintexts of stale entries.
pub open spec fn stale_plaintexts(stale: Seq<StaleFile>) -> Seq<Seq<char>> {
    stale.map_values(|f: StaleFile| f.plaintext@)
}

/// The files encrypting a status asks for: its pending files, then the
/// plaintexts of its stale entries.
pub fn encryption_inputs(status: &EncryptionStatus) -> (r: Vec<String>)
    ensures
        strs(r@) == strs(status.pending_encrypt@) + stale_plaintexts(status.stale@),
{
    let mut to_encrypt: Vec<String> = Vec::new();
    let mut k: usize = 0;
    while k < status.pending_encrypt.len()
        invariant
            k <= status.pending_encrypt.len(),
            strs(to_encrypt@) == strs(status.pending_encrypt@.take(k as int)),
        decreases status.pending_encrypt.len() - k,
    {
        let ghost before = strs(to_encrypt@);
        to_encrypt.push(status.pending_encrypt[k].clone());
        assert(strs(to_encrypt@) =~= before.push(status.pending_encrypt@[k as int]@));
        assert(status.pending_encrypt@.take(k + 1) =~= status.pending_encrypt@.take(k as int).push(status.pending_encrypt@[k as int]));
        assert(strs(to_encrypt@) =~= strs(status.pending_encrypt@.take(k + 1)));
        k = k + 1;
    }
    assert(status.pending_encrypt@.take(k as int) =~= status.pending_encrypt@);
    let ghost head = strs(to_encrypt@);
    let mut i: usize = 0;
    while i < status.stale.len()
        invariant
            i <= status.stale.len(),
            strs(to_encrypt@) == head + stale_plaintexts(status.stale@.take(i as int)),
        decreases status.stale.len() - i,
    {
        let ghost before = strs(to_encrypt@);
        to_encrypt.push(status.stale[i].plaintext.clone());
        assert(strs(to_encrypt@) =~= before.push(status.stale@[i as int].plaintext@));
        assert(stale_plaintexts(status.stale@.take(i + 1)) =~= stale_plaintexts(status.stale@.take(i as int)).push(status.stale@[i as int].plaintext@));
        assert(status.stale@.take(i + 1) =~= status.stale@.take(i as int).push(status.stale@[i as int]));
        assert(strs(to_encrypt@) =~= head + stale_plaintexts(status.stale@.take(i + 1)));
        i = i + 1;
    }
    assert(status.stale@.take(i as int) =~= status.stale@);
    to_encrypt
}

/// `v` encrypts, in order, every pending file of the status and then the
/// plaintext of every stale entry: nothing is left out or added.
pub open spec fn encrypted_all_of(v: Seq<String>, status: EncryptionStatus) -> bool {
    let ins = strs(status.pending_encrypt@) + stale_plaintexts(status.stale@);
    &&& v.len() == ins.len()
    &&& forall|i: int| 0 <= i < v.len() ==> encrypted_from(#[trigger] v[i]@, ins[i])
}

/// Encrypting a status re-encrypts every stale file: the output after the
/// pending files' outputs, at the stale entry's place, is the encryption of
/// that entry's plaintext; and every pending file is encrypted, in order.
pub proof fn law_stale_files_reencrypted(v: Seq<String>, st: EncryptionStatus)
    requires
        encrypted_all_of(v, st),
    ensures
        v.len() == st.pending_encrypt.len() + st.stale.len(),
        forall|i: int| 0 <= i < st.pending_encrypt.len() ==> encrypted_from(v[i]@, #[trigger] st.pending_encrypt@[i]@),
        forall|j: int| 0 <= j < st.stale.len() ==> encrypted_from(v[st.pending_encrypt.len() + j]@, #[trigger] st.stale@[j].plaintext@),
{
    let ins = strs(st.pending_encrypt@) + stale_plaintexts(st.stale@);
    assert forall|i: int| 0 <= i < st.pending_encrypt.len() implies encrypted_from(v[i]@, #[trigger] st.pending_encrypt@[i]@) by {
        assert(ins[i] == st.pending_encrypt@[i]@);
        assert(encrypted_from(v[i]@, ins[i]));
    }
    assert forall|j: int| 0 <= j < st.stale.len() implies encrypted_from(v[st.pending_encrypt.len() + j]@, #[trigger] st.stale@[j].plaintext@) by {
        let k = st.pending_encrypt.len() + j;
        assert(ins[k] == st.stale@[j].plaintext@);
        assert(encrypted_from(v[k]@, ins[k]));
    }
}

/// What encrypting one file does once its output name is known.
#[derive(Debug, Clone, Copy, PartialEq, Eq, Structural)]
pub enum EncryptStep {
    /// An output for the current content exists: it is taken as current.
    Reuse,
    /// No key is configured: a configuration error.
    NoKey,
    /// Older outputs are removed and sops runs.
    Run,
}

/// The encryption decision, from whether an output for the current content
/// exists and whether a key is configured.
pub open spec fn spec_encrypt_step(output_exists: bool, has_key: bool) -> EncryptStep {
    if output_exists {
        EncryptStep::Reuse
    } else if !has_key {
        EncryptStep::NoKey
    } else {
        EncryptStep::Run
    }
}

/// The encryption decision for one file.
pub fn encrypt_step(output_exists: bool, has_key: bool) -> (s: EncryptStep)
    ensures
        s == spec_encrypt_step(output_exists, has_key),
{
    if output_exists {
        EncryptStep::Reuse
    } else if !has_key {
        EncryptStep::NoKey
    } else {
        EncryptStep::Run
    }
}

/// The flag and key `sops -e` is given.
pub fn encryption_key(sops: &crate::config::SopsConfig) -> (r: Option<(String, String)>)
    ensures
        match r {
            Some((f, k)) => encrypt_key(opt_text(sops.gpg_key), opt_text(sops.age_key)) == Some((f@, k@)),
            None => encrypt_key(opt_text(sops.gpg_key), opt_text(sops.age_key)) is None,
        },
{
    let key = match &sops.gpg_key {
        Some(g) => g.clone(),
        None => match &sops.age_key {
            Some(a) => a.clone(),
            None => return None,
        },
    };
    let flag = if sops.age_key.is_some() { "--age".to_owned() } else { "--pgp".to_owned() };
    Some((flag, key))
}

/// The dotenv type arguments, for dotenv files.
pub open spec fn dotenv_args(dotenv: bool) -> Seq<Seq<char>> {
    if dotenv {
        seq!["--input-type"@, "dotenv"@, "--output-type"@, "dotenv"@]
    } else {
        seq![]
    }
}

/// The arguments of `sops` to encrypt `input` into `output`.
pub open spec fn encrypt_args(flag: Seq<char>, key: Seq<char>, input: Seq<char>, output: Seq<char>) -> Seq<Seq<char>> {
    seq!["-e"@, flag, key] + dotenv_args(is_dotenv(input)) + seq!["--output"@, output, input]
}

/// The arguments of `sops` to decrypt `input` into `output`.
pub open spec fn decrypt_args(input: Seq<char>, output: Seq<char>) -> Seq<Seq<char>> {
    seq!["-d"@] + dotenv_args(is_dotenv(output)) + seq!["--output"@, output, input]
}

fn is_dotenv_exec(p: &str) -> (b: bool)
    ensures
        b == is_dotenv(p@),
{
    match extension_vec(&chars_of(p)) {
        Some(e) => eq_str(&e, "env"),
        None => false,
    }
}

fn push_dotenv_args(args: &mut Vec<String>, dotenv: bool)
    ensures
        strs(final(args)@) == strs(old(args)@) + dotenv_args(dotenv),
{
    if dotenv {
        let ghost a0 = strs(args@);
        args.push("--input-type".to_owned());
        args.push("dotenv".to_owned());
        args.push("--output-type".to_owned());
        args.push("dotenv".to_owned());
        assert(strs(args@) =~= a0 + dotenv_args(dotenv));
    } else {
        assert(strs(args@) =~= strs(args@) + dotenv_args(dotenv));
    }
}

/// The arguments of `sops` to encrypt `input` into `output`.
pub fn sops_encrypt_args(flag: &str, key: &str, input: &str, output: &str) -> (r: Vec<String>)
    ensures
        strs(r@) == encrypt_args(flag@, key@, input@, output@),
{
    let mut args: Vec<String> = Vec::new();
    args.push("-e".to_owned());
    args.push(flag.to_owned());
    args.push(key.to_owned());
    let ghost a0 = strs(args@);
    assert(a0 =~= seq!["-e"@, flag@, key@]);
    push_dotenv_args(&mut args, is_dotenv_exec(input));
    let ghost a1 = strs(args@);
    args.push("--output".to_owned());
    args.push(output.to_owned());
    args.push(input.to_owned());
    assert(strs(args@) =~= a1 + seq!["--output"@, output@, input@]);
    args
}

/// The arguments of `sops` to decrypt `input` into `output`.
pub fn sops_decrypt_args(input: &str, output: &str) -> (r: Vec<String>)
    ensures
        strs(r@) == decrypt_args(input@, output@),
{
    let mut args: Vec<String> = Vec::new();
    args.push("-d".to_owned());
    assert(strs(args@) =~= seq!["-d"@]);
    push_dotenv_args(&mut args, is_dotenv_exec(output));
    let ghost a1 = strs(args@);
    args.push("--output".to_owned());
    args.push(output.to_owned());
    args.push(input.to_owned());
    assert(strs(args@) =~= a1 + seq!["--output"@, output@, input@]);
    args
}

/// The plaintext a `.enc` file decrypts to: `{name}` next to
/// `{name}.{hash8}.enc`, else the path without `.enc`.
pub open spec fn decrypt_output(input: Seq<char>) -> Seq<char> {
    match parsed_encrypted(input) {
        Some((name, _)) => join(
            match parent(input) {
                Some(d) => d,
                None => "."@,
            },
            name,
        ),
        None => input.take(input.len() - 4),
    }
}

/// The plaintext a `.enc` file decrypts to.
pub fn decrypt_output_path(input: &str) -> (r: String)
    requires
        ends_with(input@, ".enc"@),
    ensures
        r@ == decrypt_output(input@),
{
    match parse_encrypted_filename(input) {
        Some((name, _)) => {
            let d = match parent_str(input) {
                Some(d) => d,
                None => ".".to_owned(),
            };
            join_str(d.as_str(), name.as_str())
        },
        None => {
            let v = chars_of(input);
            proof {
                reveal_strlit(".enc");
            }
            let s = slice(&v, 0, v.len() - 4);
            assert(s@ =~= input@.take(input@.len() - 4));
            string_of(&s)
        },
    }
}

/// SOPS encryption/decryption service.
pub struct SopsService<F: FileSystem, C: CommandRunner> {
    pub fs: F,
    pub cmd: C,
    pub settings: Settings,
}

impl<F: FileSystem, C: CommandRunner> SopsService<F, C> {
    /// Create a new SOPS service.
    pub fn new(fs: F, cmd: C, settings: Settings) -> (r: Self)
        ensures
            r.fs == fs,
            r.cmd == cmd,
            r.settings == settings,
    {
        SopsService { fs, cmd, settings }
    }

    /// The directory worked on: the given one, else the directory of all
    /// vaults.
    fn target_dir(&self, base_dir: Option<&str>) -> (r: String)
        ensures
            base_dir matches Some(d) ==> r@ == d@,
    {
        match base_dir {
            Some(d) => d.to_owned(),
            None => self.settings.vaults_dir(),
        }
    }

    /// The files under `dir` whose name is one of `filenames` or whose
    /// extension is one of `extensions`.
    pub fn collect_files(&self, dir: &str, extensions: &[String], filenames: &[String]) -> (r: Result<Vec<String>, ApplicationError>)
        ensures
            r matches Ok(v) ==> forall|i: int| 0 <= i < v.len() ==> in_scope((#[trigger] v@[i])@, strs(extensions@), strs(filenames@)),
    {
        let entries = walk_dir(dir, usize::MAX);
        let mut paths: Vec<String> = Vec::new();
        let mut i: usize = 0;
        while i < entries.len()
            invariant
                i <= entries.len(),
            decreases entries.len() - i,
        {
            if entries[i].is_file {
                paths.push(entries[i].path.clone());
            }
            i = i + 1;
        }
        let selected = select_matching(&paths, extensions, filenames);
        proof {
            let pred = |p: Seq<char>| in_scope(p, strs(extensions@), strs(filenames@));
            assert forall|i: int| 0 <= i < selected.len() implies in_scope((#[trigger] selected@[i])@, strs(extensions@), strs(filenames@)) by {
                strs(paths@).lemma_filter_pred(pred, i);
                assert(strs(selected@)[i] == selected@[i]@);
            }
        }
        Ok(selected)
    }

    /// The encrypted files under `dir`, grouped by the plaintext they stand
    /// for.
    pub fn find_encrypted_files(&self, dir: &str) -> (r: Result<Vec<EncGroup>, ApplicationError>)
        ensures
            r is Ok,
    {
        let entries = walk_dir(dir, usize::MAX);
        let mut groups: Vec<EncGroup> = Vec::new();
        let mut i: usize = 0;
        while i < entries.len()
            invariant
                i <= entries.len(),
            decreases entries.len() - i,
        {
            let entry = &entries[i];
            i = i + 1;
            if !entry.is_file {
                continue;
            }
            let name = match file_name_str(entry.path.as_str()) {
                Some(n) => n,
                None => continue,
            };
            if !ends_with_str(&chars_of(name.as_str()), ".enc") {
                continue;
            }
            if let Some(key) = enc_plaintext_path(entry.path.as_str(), dir) {
                match find_group(&groups, &key) {
                    Some(k) => {
                        let old = groups.remove(k);
                        let mut files = old.files;
                        files.push(entry.path.clone());
                        groups.insert(k, EncGroup { plaintext: old.plaintext, files });
                    },
                    None => {
                        let mut files: Vec<String> = Vec::new();
                        files.push(entry.path.clone());
                        groups.push(EncGroup { plaintext: key, files });
                    },
                }
            }
        }
        Ok(groups)
    }

    /// Where each plaintext file under the directory stands: pending,
    /// stale or current, and which encrypted files are orphaned.
    pub fn status(&self, base_dir: Option<&str>) -> (r: Result<EncryptionStatus, ApplicationError>)
        ensures
            r matches Ok(st) ==> is_categorization(st),
    {
        let dir = self.target_dir(base_dir);
        let plaintext_files = match self.collect_files(dir.as_str(), self.settings.sops.file_extensions_enc.as_slice(), self.settings.sops.file_names_enc.as_slice()) {
            Ok(f) => f,
            Err(e) => return Err(e),
        };
        let groups = match self.find_encrypted_files(dir.as_str()) {
            Ok(g) => g,
            Err(e) => return Err(e),
        };
        let mut hashed: Vec<(String, String)> = Vec::new();
        let mut i: usize = 0;
        while i < plaintext_files.len()
            invariant
                i <= plaintext_files.len(),
            decreases plaintext_files.len() - i,
        {
            let h = match file_hash(&self.fs, plaintext_files[i].as_str()) {
                Ok(h) => h,
                Err(e) => return Err(e),
            };
            hashed.push((plaintext_files[i].clone(), h));
            i = i + 1;
        }
        let st = categorize(&hashed, &groups);
        assert(categorized(st, pairs_view(hashed@), groups_view(groups@)));
        assert(is_categorization(st));
        Ok(st)
    }

    /// Encrypt one file with SOPS to `{input}.{hash8}.enc`; an existing
    /// file of that name is taken as current. Older encryptions of the file
    /// are removed first. Without a configured key, a config error.
    pub fn encrypt_file(&self, input: &str) -> (r: Result<String, ApplicationError>)
        ensures
            r matches Ok(out) ==> file_name(input@) is Some && exists|c: Seq<u8>| out@ == crate::application::hash::spec_encrypted_filename(input@, #[trigger] crate::application::hash::spec_content_hash(c)),
            r matches Err(e) ==> e is OperationFailed || e is Config,
            r matches Err(ApplicationError::Config { .. }) ==> encrypt_key(opt_text(self.settings.sops.gpg_key), opt_text(self.settings.sops.age_key)) is None,
    {
        let hash = match file_hash(&self.fs, input) {
            Ok(h) => h,
            Err(e) => return Err(e),
        };
        if crate::pathstr::file_name_str(input).is_none() {
            return Err(detected(context2("not a file path: ", input), IoKind::InvalidInput, "no file name"));
        }
        let output = encrypted_filename(input, hash.as_str());
        let output_exists = self.fs.path_exists(output.as_str());
        let key = encryption_key(&self.settings.sops);
        match encrypt_step(output_exists, key.is_some()) {
            EncryptStep::Reuse => return Ok(output),
            EncryptStep::NoKey => {
                match self.delete_old_enc_files(input) {
                    Ok(()) => {},
                    Err(e) => return Err(e),
                }
                return Err(ApplicationError::Config { message: "no encryption key configured (gpg_key or age_key)".to_owned() });
            },
            EncryptStep::Run => {},
        }
        match self.delete_old_enc_files(input) {
            Ok(()) => {},
            Err(e) => return Err(e),
        }
        let (flag, key) = match key {
            Some(k) => k,
            None => return Err(ApplicationError::Config { message: "no encryption key configured (gpg_key or age_key)".to_owned() }),
        };
        let args = sops_encrypt_args(flag.as_str(), key.as_str(), input, output.as_str());
        let result = match self.cmd.run("sops", args.as_slice()) {
            Ok(o) => o,
            Err(e) => return Err(io_failed(context2("run sops encrypt: ", input), e)),
        };
        if !result.success {
            let context = context2(context2("sops encrypt ", input).as_str(), context2(": ", result.stderr.as_str()).as_str());
            return Err(ApplicationError::OperationFailed {
                context,
                source: ErrorSource::Sops { message: result.stderr, exit_code: result.code },
            });
        }
        Ok(output)
    }

    /// Remove the encrypted versions of `plaintext` next to it, of either
    /// format; files that cannot be removed are passed over.
    pub fn delete_old_enc_files(&self, plaintext: &str) -> (r: Result<(), ApplicationError>)
        ensures
            r is Ok,
    {
        let dir = match parent_str(plaintext) {
            Some(d) => d,
            None => ".".to_owned(),
        };
        let filename = match file_name_str(plaintext) {
            Some(n) => n,
            None => String::new(),
        };
        let entries = walk_dir(dir.as_str(), 1);
        let mut i: usize = 0;
        while i < entries.len()
            invariant
                i <= entries.len(),
            decreases entries.len() - i,
        {
            let entry = &entries[i];
            i = i + 1;
            if entry.depth == 0 {
                continue;
            }
            let enc_name = match file_name_str(entry.path.as_str()) {
                Some(n) => n,
                None => continue,
            };
            let ev = chars_of(enc_name.as_str());
            if starts_with_str(&ev, filename.as_str()) && ends_with_str(&ev, ".enc") {
                match parse_encrypted_filename(entry.path.as_str()) {
                    Some((parsed_name, _)) => {
                        if parsed_name == filename {
                            let _ = self.fs.remove_file(entry.path.as_str());
                        }
                    },
                    None => {
                        if is_old_enc_format(entry.path.as_str()) {
                            proof {
                                reveal_strlit(".enc");
                            }
                            let old_plaintext = slice(&ev, 0, ev.len() - 4);
                            if eq_str(&old_plaintext, filename.as_str()) {
                                let _ = self.fs.remove_file(entry.path.as_str());
                            }
                        }
                    },
                }
            }
        }
        Ok(())
    }

    /// Decrypt one `.enc` file with SOPS next to it; a file without the
    /// `.enc` extension is refused.
    pub fn decrypt_file(&self, input: &str) -> (r: Result<String, ApplicationError>)
        ensures
            !ends_with(input@, ".enc"@) ==> r matches Err(ApplicationError::OperationFailed { source: ErrorSource::Detected { kind: IoKind::InvalidInput, .. }, .. }),
            r matches Ok(out) ==> out@ == decrypt_output(input@),
    {
        if !ends_with_str(&chars_of(input), ".enc") {
            return Err(detected(context2("file does not have .enc extension: ", input), IoKind::InvalidInput, "expected .enc file"));
        }
        let output = decrypt_output_path(input);
        let args = sops_decrypt_args(input, output.as_str());
        let result = match self.cmd.run("sops", args.as_slice()) {
            Ok(o) => o,
            Err(e) => return Err(io_failed(context2("run sops decrypt: ", input), e)),
        };
        if !result.success {
            let context = context2(context2("sops decrypt ", input).as_str(), context2(": ", result.stderr.as_str()).as_str());
            return Err(ApplicationError::OperationFailed {
                context,
                source: ErrorSource::Sops { message: result.stderr, exit_code: result.code },
            });
        }
        Ok(output)
    }

    /// Encrypt every pending or stale file under the directory. Every file
    /// is attempted; the first failure, in order, is returned.
    pub fn encrypt_all(&self, base_dir: Option<&str>) -> (r: Result<Vec<String>, ApplicationError>)
        ensures
            r matches Ok(v) ==> exists|st: EncryptionStatus| #[trigger] encrypted_all_of(v@, st) && is_categorization(st),
    {
        let status = match self.status(base_dir) {
            Ok(s) => s,
            Err(e) => return Err(e),
        };
        let r = self.encrypt_status(&status);
        proof {
            if r is Ok {
                assert(encrypted_all_of(r->Ok_0@, status) && is_categorization(status));
            }
        }
        r
    }

    /// Encrypt the files a status lists as pending, then the plaintexts of
    /// its stale entries. Every file is attempted; the first failure, in
    /// order, is returned; on success each output is the hash-named
    /// encryption of its input, in the same order.
    pub fn encrypt_status(&self, status: &EncryptionStatus) -> (r: Result<Vec<String>, ApplicationError>)
        ensures
            r matches Ok(v) ==> encrypted_all_of(v@, *status),
    {
        let to_encrypt = encryption_inputs(status);
        let mut outputs: Vec<String> = Vec::new();
        let mut first_error: Option<ApplicationError> = None;
        let mut j: usize = 0;
        while j < to_encrypt.len()
            invariant
                j <= to_encrypt.len(),
                first_error is None ==> outputs.len() == j,
                first_error is None ==> forall|i: int| 0 <= i < j ==> encrypted_from(#[trigger] outputs@[i]@, to_encrypt@[i]@),
            decreases to_encrypt.len() - j,
        {
            let path = to_encrypt[j].as_str();
            let res = if crate::pathstr::file_name_str(path).is_some() {
                self.encrypt_file(path)
            } else {
                Err(detected(context2("not a file: ", path), IoKind::InvalidInput, "no file name"))
            };
            match res {
                Ok(o) => {
                    let ghost before = outputs@;
                    outputs.push(o);
                    proof {
                        if first_error is None {
                            assert forall|i: int| 0 <= i < j + 1 implies encrypted_from(#[trigger] outputs@[i]@, to_encrypt@[i]@) by {
                                if i < j {
                                    assert(outputs@[i] == before[i]);
                                }
                            }
                        }
                    }
                },
                Err(e) => if first_error.is_none() {
                    first_error = Some(e);
                },
            }
            j = j + 1;
        }
        match first_error {
            Some(e) => Err(e),
            None => {
                proof {
                    let ins = crate::config::strs(to_encrypt@);
                    assert(forall|i: int| 0 <= i < outputs.len() ==> ins[i] == to_encrypt@[i]@);
                }
                Ok(outputs)
            },
        }
    }

    /// Decrypt every file under the directory with a decryption extension.
    /// Every file is attempted; the first failure, in order, is returned.
    pub fn decrypt_all(&self, base_dir: Option<&str>) -> (r: Result<Vec<String>, ApplicationError>) {
        let dir = self.target_dir(base_dir);
        let no_names: Vec<String> = Vec::new();
        let files = match self.collect_files(dir.as_str(), self.settings.sops.file_extensions_dec.as_slice(), no_names.as_slice()) {
            Ok(f) => f,
            Err(e) => return Err(e),
        };
        let mut outputs: Vec<String> = Vec::new();
        let mut first_error: Option<ApplicationError> = None;
        let mut j: usize = 0;
        while j < files.len()
            invariant
                j <= files.len(),
            decreases files.len() - j,
        {
            match self.decrypt_file(files[j].as_str()) {
                Ok(o) => outputs.push(o),
                Err(e) => if first_error.is_none() {
                    first_error = Some(e);
                },
            }
            j = j + 1;
        }
        match first_error {
            Some(e) => Err(e),
            None => Ok(outputs),
        }
    }

    /// Move the old-format `.enc` files without a plaintext beside them
    /// (`name.enc`) to the hash-named format: decrypt each, encrypt the
    /// plaintext again (which removes the old file). Returns the old and new
    /// encrypted paths; the first failure stops the run.
    pub fn migrate(&self, base_dir: Option<&str>) -> (r: Result<Vec<(String, String)>, ApplicationError>)
        ensures
            r matches Ok(v) ==> forall|i: int| 0 <= i < v.len() ==> old_enc_format((#[trigger] v@[i]).0@)
                && exists|h: Seq<char>| v@[i].1@ == crate::application::hash::spec_encrypted_filename(decrypt_output(v@[i].0@), h),
    {
        let status = match self.status(base_dir) {
            Ok(s) => s,
            Err(e) => return Err(e),
        };
        let mut migrated: Vec<(String, String)> = Vec::new();
        let mut i: usize = 0;
        while i < status.orphaned.len()
            invariant
                i <= status.orphaned.len(),
                forall|k: int| 0 <= k < migrated.len() ==> old_enc_format((#[trigger] migrated@[k]).0@)
                    && exists|h: Seq<char>| migrated@[k].1@ == crate::application::hash::spec_encrypted_filename(decrypt_output(migrated@[k].0@), h),
            decreases status.orphaned.len() - i,
        {
            let old = &status.orphaned[i];
            i = i + 1;
            if !is_old_enc_format(old.as_str()) {
                continue;
            }
            let plaintext = match self.decrypt_file(old.as_str()) {
                Ok(p) => p,
                Err(e) => return Err(e),
            };
            if file_name_str(plaintext.as_str()).is_none() {
                return Err(detected(context2("no file name in ", plaintext.as_str()), IoKind::InvalidData, "cannot name the encrypted file"));
            }
            let encrypted = match self.encrypt_file(plaintext.as_str()) {
                Ok(e) => e,
                Err(e) => return Err(e),
            };
            migrated.push((old.clone(), encrypted));
        }
        Ok(migrated)
    }

    /// Delete the plaintext files whose encryption is current (hash
    /// matching); others are kept.
    pub fn clean(&self, base_dir: Option<&str>) -> (r: Result<Vec<String>, ApplicationError>)
        ensures
            r matches Ok(d) ==> current_files(strs(d@)),
    {
        let status = match self.status(base_dir) {
            Ok(s) => s,
            Err(e) => return Err(e),
        };
        let mut deleted: Vec<String> = Vec::new();
        let mut i: usize = 0;
        while i < status.current.len()
            invariant
                i <= status.current.len(),
                deleted.len() == i,
                forall|j: int| 0 <= j < i ==> (#[trigger] deleted@[j])@ == status.current@[j]@,
            decreases status.current.len() - i,
        {
            match self.fs.remove_file(status.current[i].as_str()) {
                Ok(()) => {},
                Err(e) => return Err(io_failed(context2("delete plaintext: ", status.current[i].as_str()), e)),
            }
            deleted.push(status.current[i].clone());
            i = i + 1;
        }
        assert(strs(deleted@) =~= strs(status.current@));
        assert(current_files(strs(deleted@)));
        Ok(deleted)
    }
}

} // verus!
