//! Layered configuration: compiled defaults, the global config, the
//! vault-local config and `RSENV_*` overrides.
//!
//! Reading the files and the environment happens outside this module; here
//! are the rules by which the layers combine.
use vstd::prelude::*;

use crate::pathstr::join;
use crate::text::{chars_of, eq_vec, lex_lt, lex_lt_exec, lemma_lex_total, lemma_lex_trans,
    slice, sorted_unique, string_of, views};

verus! {

/// The texts of a list of strings.
pub open spec fn strs(v: Seq<String>) -> Seq<Seq<char>> {
    v.map_values(|s: String| s@)
}

/// The text of an optional string.
pub open spec fn opt_str(o: Option<String>) -> Option<Seq<char>> {
    match o {
        Some(s) => Some(s@),
        None => None,
    }
}

/// SOPS encryption configuration.
#[derive(Debug, Clone, PartialEq, Eq)]
pub struct SopsConfig {
    /// GPG key fingerprint for encryption
    pub gpg_key: Option<String>,
    /// Age public key (alternative to GPG)
    pub age_key: Option<String>,
    /// File extensions to encrypt (e.g., ["envrc", "env"])
    pub file_extensions_enc: Vec<String>,
    /// Exact filenames to encrypt (e.g., ["dot_pypirc", "dot_pgpass"])
    pub file_names_enc: Vec<String>,
    /// File extensions to decrypt (typically ["enc"])
    pub file_extensions_dec: Vec<String>,
    /// Exact filenames to decrypt (usually empty)
    pub file_names_dec: Vec<String>,
}

/// Raw SOPS config of one layer: `None` for an array means "not specified".
#[derive(Debug, Clone)]
pub struct RawSopsConfig {
    pub gpg_key: Option<String>,
    pub age_key: Option<String>,
    pub file_extensions_enc: Option<Vec<String>>,
    pub file_names_enc: Option<Vec<String>>,
    pub file_extensions_dec: Option<Vec<String>>,
    pub file_names_dec: Option<Vec<String>>,
}

/// Raw settings of one layer.
#[derive(Debug, Clone)]
pub struct RawSettings {
    pub base_dir: Option<String>,
    pub editor: Option<String>,
    pub sops: RawSopsConfig,
}

/// Unified configuration for rsenv.
#[derive(Debug, Clone, PartialEq, Eq)]
pub struct Settings {
    /// Base directory for rsenv (default: ~/.rsenv)
    pub base_dir: String,
    /// Editor command (default: $EDITOR or "vim")
    pub editor: String,
    /// SOPS encryption settings
    pub sops: SopsConfig,
}

/// A copy of a string.
pub fn copy_string(s: &String) -> (r: String)
    ensures
        r@ == s@,
{
    s.clone()
}

/// A copy of a list of strings.
pub fn copy_strings(v: &[String]) -> (r: Vec<String>)
    ensures
        strs(r@) == strs(v@),
{
    let mut r: Vec<String> = Vec::new();
    let mut i: usize = 0;
    while i < v.len()
        invariant
            i <= v.len(),
            strs(r@) =~= strs(v@).take(i as int),
        decreases v.len() - i,
    {
        let c = v[i].clone();
        let ghost old_r = strs(r@);
        r.push(c);
        assert(strs(r@) =~= old_r.push(v@[i as int]@));
        assert(strs(v@).take(i + 1) =~= strs(v@).take(i as int).push(v@[i as int]@));
        i = i + 1;
    }
    assert(strs(v@).take(i as int) =~= strs(v@));
    r
}

/// A copy of an optional string.
pub fn copy_opt(o: &Option<String>) -> (r: Option<String>)
    ensures
        opt_str(r) == opt_str(*o),
{
    match o {
        Some(s) => Some(s.clone()),
        None => None,
    }
}

/// The overlay's value when given, else the base's.
pub open spec fn or_else(overlay: Option<String>, base: Option<String>) -> Option<Seq<char>> {
    match overlay {
        Some(s) => Some(s@),
        None => opt_str(base),
    }
}

fn pick_opt(overlay: &Option<String>, base: &Option<String>) -> (r: Option<String>)
    ensures
        opt_str(r) == or_else(*overlay, *base),
{
    match overlay {
        Some(s) => Some(s.clone()),
        None => copy_opt(base),
    }
}

/// The set of texts left after applying `overlay` to `base` in order: a
/// pattern `!x` removes `x`, any other pattern is added.
pub open spec fn merge_set(base: Set<Seq<char>>, overlay: Seq<Seq<char>>) -> Set<Seq<char>>
    decreases overlay.len(),
{
    if overlay.len() == 0 {
        base
    } else {
        let s = merge_set(base, overlay.drop_last());
        let p = overlay.last();
        if p.len() > 0 && p[0] == '!' {
            s.remove(p.drop_first())
        } else {
            s.insert(p)
        }
    }
}

/// A sorted list of distinct texts with `x` added.
pub fn insert_sorted(v: &mut Vec<Vec<char>>, x: Vec<char>)
    requires
        sorted_unique(views(old(v)@)),
    ensures
        sorted_unique(views(final(v)@)),
        views(final(v)@).to_set() == views(old(v)@).to_set().insert(x@),
{
    let ghost old_v = views(v@);
    let mut k: usize = 0;
    while k < v.len() && lex_lt_exec(&v[k], &x)
        invariant
            k <= v.len(),
            views(v@) == old_v,
            forall|j: int| 0 <= j < k ==> lex_lt(#[trigger] old_v[j], x@),
        decreases v.len() - k,
    {
        k = k + 1;
    }
    if k < v.len() && eq_vec(&v[k], &x) {
        assert(old_v[k as int] == x@);
        assert(old_v.to_set().insert(x@) =~= old_v.to_set());
        return;
    }
    let ghost xv = x@;
    proof {
        if k < v.len() {
            lemma_lex_total(old_v[k as int], xv);
            assert(lex_lt(xv, old_v[k as int]));
        }
    }
    v.insert(k, x);
    let ghost nv = views(v@);
    assert(nv =~= old_v.insert(k as int, xv));
    assert forall|i: int, j: int| 0 <= i < j < nv.len() implies lex_lt(
        #[trigger] nv[i],
        #[trigger] nv[j],
    ) by {
        if j < k {
        } else if j == k {
        } else if i < k {
            if j - 1 == k {
                lemma_lex_trans(old_v[i], xv, old_v[k as int]);
            } else {
                lemma_lex_trans(old_v[i], xv, old_v[k as int]);
                lemma_lex_trans(old_v[i], old_v[k as int], old_v[j - 1]);
            }
        } else if i == k {
            if j - 1 > k {
                lemma_lex_trans(xv, old_v[k as int], old_v[j - 1]);
            }
        } else {
        }
    }
    assert forall|t: Seq<char>| nv.to_set().contains(t) <==> old_v.to_set().insert(xv).contains(
        t,
    ) by {
        if nv.contains(t) {
            let i = nv.index_of(t);
            if i < k {
                assert(old_v[i] == t);
            } else if i > k {
                assert(old_v[i - 1] == t);
            }
        }
        if old_v.contains(t) {
            let i = old_v.index_of(t);
            if i < k {
                assert(nv[i] == t);
            } else {
                assert(nv[i + 1] == t);
            }
        }
        if t == xv {
            assert(nv[k as int] == t);
        }
    }
    assert(nv.to_set() =~= old_v.to_set().insert(xv));
}

/// A sorted list of distinct texts with `x` taken out.
pub fn remove_sorted(v: &mut Vec<Vec<char>>, x: &Vec<char>)
    requires
        sorted_unique(views(old(v)@)),
    ensures
        sorted_unique(views(final(v)@)),
        views(final(v)@).to_set() == views(old(v)@).to_set().remove(x@),
{
    let ghost old_v = views(v@);
    let mut k: usize = 0;
    while k < v.len()
        invariant
            k <= v.len(),
            views(v@) == old_v,
            old_v == views(old(v)@),
            sorted_unique(old_v),
            forall|j: int| 0 <= j < k ==> #[trigger] old_v[j] != x@,
        decreases v.len() - k,
    {
        if eq_vec(&v[k], x) {
            assert(old_v[k as int] == x@);
            v.remove(k);
            let ghost nv = views(v@);
            assert(nv =~= old_v.remove(k as int));
            assert forall|i: int, j: int| 0 <= i < j < nv.len() implies lex_lt(
                #[trigger] nv[i],
                #[trigger] nv[j],
            ) by {
                if j < k {
                    assert(nv[i] == old_v[i]);
                    assert(nv[j] == old_v[j]);
                    assert(lex_lt(old_v[i], old_v[j]));
                } else if i < k {
                    assert(nv[i] == old_v[i]);
                    assert(nv[j] == old_v[j + 1]);
                    assert(lex_lt(old_v[i], old_v[j + 1]));
                } else {
                    assert(nv[i] == old_v[i + 1]);
                    assert(nv[j] == old_v[j + 1]);
                    assert(lex_lt(old_v[i + 1], old_v[j + 1]));
                }
            }
            assert forall|t: Seq<char>| nv.to_set().contains(t) <==> old_v.to_set().remove(
                x@,
            ).contains(t) by {
                if nv.contains(t) {
                    let i = nv.index_of(t);
                    if i < k {
                        assert(old_v[i] == t);
                        lemma_lex_total(t, t);
                        assert(lex_lt(old_v[i], old_v[k as int]));
                    } else {
                        assert(old_v[i + 1] == t);
                        assert(lex_lt(old_v[k as int], old_v[i + 1]));
                        lemma_lex_total(t, t);
                    }
                }
                if old_v.contains(t) && t != x@ {
                    let i = old_v.index_of(t);
                    if i < k {
                        assert(nv[i] == t);
                    } else {
                        assert(i != k);
                        assert(nv[i - 1] == t);
                    }
                }
            }
            assert(nv.to_set() =~= old_v.to_set().remove(x@));
            return;
        }
        k = k + 1;
    }
    assert forall|t: Seq<char>| old_v.to_set().contains(t) implies t != x@ by {
        let i = old_v.index_of(t);
    }
    assert(old_v.to_set().remove(x@) =~= old_v.to_set());
}

/// Pushing onto a sequence adds the element to its set.
pub proof fn lemma_push_to_set(s: Seq<Seq<char>>, x: Seq<char>)
    ensures
        s.push(x).to_set() == s.to_set().insert(x),
{
    assert forall|t: Seq<char>| s.push(x).to_set().contains(t) <==> s.to_set().insert(x).contains(t) by {
        if s.push(x).contains(t) {
            let i = s.push(x).index_of(t);
            if i < s.len() {
                assert(s[i] == t);
            }
        }
        if s.contains(t) {
            let i = s.index_of(t);
            assert(s.push(x)[i] == t);
        }
        if t == x {
            assert(s.push(x)[s.len() as int] == t);
        }
    }
    assert(s.push(x).to_set() =~= s.to_set().insert(x));
}

impl SopsConfig {
    /// Merge arrays with union semantics and negation support.
    ///
    /// - Items from overlay are added to base
    /// - Items prefixed with `!` remove the corresponding item from the result
    /// - Duplicates are de-duplicated; the result is sorted
    pub fn merge_array(base: &[String], overlay: &[String]) -> (r: Vec<String>)
        ensures
            sorted_unique(strs(r@)),
            strs(r@).to_set() == merge_set(strs(base@).to_set(), strs(overlay@)),
    {
        let mut acc: Vec<Vec<char>> = Vec::new();
        let mut i: usize = 0;
        assert(strs(base@).take(0).to_set() =~= views(acc@).to_set());
        while i < base.len()
            invariant
                i <= base.len(),
                sorted_unique(views(acc@)),
                views(acc@).to_set() == strs(base@).take(i as int).to_set(),
            decreases base.len() - i,
        {
            let x = chars_of(base[i].as_str());
            insert_sorted(&mut acc, x);
            assert(strs(base@).take(i + 1) =~= strs(base@).take(i as int).push(base@[i as int]@));
            proof {
                lemma_push_to_set(strs(base@).take(i as int), base@[i as int]@);
            }
            i = i + 1;
        }
        assert(strs(base@).take(i as int) =~= strs(base@));
        let ghost b = strs(base@).to_set();
        let mut j: usize = 0;
        assert(strs(overlay@).take(0) =~= Seq::<Seq<char>>::empty());
        while j < overlay.len()
            invariant
                j <= overlay.len(),
                b == strs(base@).to_set(),
                sorted_unique(views(acc@)),
                views(acc@).to_set() == merge_set(b, strs(overlay@).take(j as int)),
            decreases overlay.len() - j,
        {
            let p = chars_of(overlay[j].as_str());
            assert(strs(overlay@).take(j + 1).drop_last() =~= strs(overlay@).take(j as int));
            if p.len() > 0 && p[0] == '!' {
                let neg = slice(&p, 1, p.len());
                assert(neg@ =~= p@.drop_first());
                remove_sorted(&mut acc, &neg);
            } else {
                insert_sorted(&mut acc, p);
            }
            j = j + 1;
        }
        assert(strs(overlay@).take(j as int) =~= strs(overlay@));
        let mut r: Vec<String> = Vec::new();
        let mut k: usize = 0;
        while k < acc.len()
            invariant
                k <= acc.len(),
                strs(r@) =~= views(acc@).take(k as int),
            decreases acc.len() - k,
        {
            let t = string_of(&acc[k]);
            let ghost old_r = strs(r@);
            r.push(t);
            assert(strs(r@) =~= old_r.push(acc@[k as int]@));
            assert(views(acc@).take(k + 1) =~= views(acc@).take(k as int).push(acc@[k as int]@));
            k = k + 1;
        }
        assert(views(acc@).take(k as int) =~= views(acc@));
        r
    }

    /// Merge overlay config onto self (base).
    ///
    /// - Scalar options: overlay wins if Some, otherwise keep base
    /// - Arrays: union merge with negation support (if overlay specified)
    pub fn merge(&self, overlay: &RawSopsConfig) -> (r: Self)
        ensures
            opt_str(r.gpg_key) == or_else(overlay.gpg_key, self.gpg_key),
            opt_str(r.age_key) == or_else(overlay.age_key, self.age_key),
            merged_array(r.file_extensions_enc@, self.file_extensions_enc@, overlay.file_extensions_enc),
            merged_array(r.file_names_enc@, self.file_names_enc@, overlay.file_names_enc),
            merged_array(r.file_extensions_dec@, self.file_extensions_dec@, overlay.file_extensions_dec),
            merged_array(r.file_names_dec@, self.file_names_dec@, overlay.file_names_dec),
    {
        SopsConfig {
            gpg_key: pick_opt(&overlay.gpg_key, &self.gpg_key),
            age_key: pick_opt(&overlay.age_key, &self.age_key),
            file_extensions_enc: merge_opt_array(&self.file_extensions_enc, &overlay.file_extensions_enc),
            file_names_enc: merge_opt_array(&self.file_names_enc, &overlay.file_names_enc),
            file_extensions_dec: merge_opt_array(&self.file_extensions_dec, &overlay.file_extensions_dec),
            file_names_dec: merge_opt_array(&self.file_names_dec, &overlay.file_names_dec),
        }
    }

    /// Apply global config onto defaults: an array that the global config
    /// specifies REPLACES the default array.
    pub fn apply_global(&self, global: &RawSopsConfig) -> (r: Self)
        ensures
            opt_str(r.gpg_key) == or_else(global.gpg_key, self.gpg_key),
            opt_str(r.age_key) == or_else(global.age_key, self.age_key),
            strs(r.file_extensions_enc@) == replaced(self.file_extensions_enc@, global.file_extensions_enc),
            strs(r.file_names_enc@) == replaced(self.file_names_enc@, global.file_names_enc),
            strs(r.file_extensions_dec@) == replaced(self.file_extensions_dec@, global.file_extensions_dec),
            strs(r.file_names_dec@) == replaced(self.file_names_dec@, global.file_names_dec),
    {
        SopsConfig {
            gpg_key: pick_opt(&global.gpg_key, &self.gpg_key),
            age_key: pick_opt(&global.age_key, &self.age_key),
            file_extensions_enc: replace_array(&self.file_extensions_enc, &global.file_extensions_enc),
            file_names_enc: replace_array(&self.file_names_enc, &global.file_names_enc),
            file_extensions_dec: replace_array(&self.file_extensions_dec, &global.file_extensions_dec),
            file_names_dec: replace_array(&self.file_names_dec, &global.file_names_dec),
        }
    }

    /// A copy of this configuration.
    pub fn copy(&self) -> (r: Self)
        ensures
            r.same_as(*self),
    {
        SopsConfig {
            gpg_key: copy_opt(&self.gpg_key),
            age_key: copy_opt(&self.age_key),
            file_extensions_enc: copy_strings(&self.file_extensions_enc),
            file_names_enc: copy_strings(&self.file_names_enc),
            file_extensions_dec: copy_strings(&self.file_extensions_dec),
            file_names_dec: copy_strings(&self.file_names_dec),
        }
    }

    /// Two configurations hold the same texts.
    pub open spec fn same_as(self, other: Self) -> bool {
        &&& opt_str(self.gpg_key) == opt_str(other.gpg_key)
        &&& opt_str(self.age_key) == opt_str(other.age_key)
        &&& strs(self.file_extensions_enc@) == strs(other.file_extensions_enc@)
        &&& strs(self.file_names_enc@) == strs(other.file_names_enc@)
        &&& strs(self.file_extensions_dec@) == strs(other.file_extensions_dec@)
        &&& strs(self.file_names_dec@) == strs(other.file_names_dec@)
    }
}

/// The compiled defaults: encrypt `*.envrc` and `*.env`, decrypt `*.enc`.
pub open spec fn is_default_sops(c: SopsConfig) -> bool {
    &&& c.gpg_key is None
    &&& c.age_key is None
    &&& strs(c.file_extensions_enc@) == seq![seq!['e', 'n', 'v', 'r', 'c'], seq!['e', 'n', 'v']]
    &&& c.file_names_enc@.len() == 0
    &&& strs(c.file_extensions_dec@) == seq![seq!['e', 'n', 'c']]
    &&& c.file_names_dec@.len() == 0
}

fn text(v: Vec<char>) -> (r: String)
    ensures
        r@ == v@,
{
    string_of(&v)
}

impl Default for SopsConfig {
    fn default() -> (r: Self)
        ensures
            is_default_sops(r),
    {
        let mut enc: Vec<String> = Vec::new();
        enc.push(text(vec!['e', 'n', 'v', 'r', 'c']));
        enc.push(text(vec!['e', 'n', 'v']));
        let mut dec: Vec<String> = Vec::new();
        dec.push(text(vec!['e', 'n', 'c']));
        let r = SopsConfig {
            gpg_key: None,
            age_key: None,
            file_extensions_enc: enc,
            file_names_enc: Vec::new(),
            file_extensions_dec: dec,
            file_names_dec: Vec::new(),
        };
        assert(strs(r.file_extensions_enc@) =~= seq![
            seq!['e', 'n', 'v', 'r', 'c'],
            seq!['e', 'n', 'v'],
        ]);
        assert(strs(r.file_extensions_dec@) =~= seq![seq!['e', 'n', 'c']]);
        r
    }
}

impl Default for RawSopsConfig {
    /// A layer that specifies nothing.
    fn default() -> (r: Self)
        ensures
            r.gpg_key is None,
            r.age_key is None,
            r.file_extensions_enc is None,
            r.file_names_enc is None,
            r.file_extensions_dec is None,
            r.file_names_dec is None,
    {
        RawSopsConfig {
            gpg_key: None,
            age_key: None,
            file_extensions_enc: None,
            file_names_enc: None,
            file_extensions_dec: None,
            file_names_dec: None,
        }
    }
}

impl Default for RawSettings {
    /// A layer that specifies nothing.
    fn default() -> (r: Self)
        ensures
            r.base_dir is None,
            r.editor is None,
            r.sops.gpg_key is None,
            r.sops.age_key is None,
            r.sops.file_extensions_enc is None,
            r.sops.file_names_enc is None,
            r.sops.file_extensions_dec is None,
            r.sops.file_names_dec is None,
    {
        RawSettings { base_dir: None, editor: None, sops: RawSopsConfig::default() }
    }
}

/// The result of merging an overlay array (when given) onto a base array.
pub open spec fn merged_array(r: Seq<String>, base: Seq<String>, overlay: Option<Vec<String>>) -> bool {
    match overlay {
        Some(o) => sorted_unique(strs(r)) && strs(r).to_set() == merge_set(
            strs(base).to_set(),
            strs(o@),
        ),
        None => strs(r) == strs(base),
    }
}

/// The overlay array when given, else the base array.
pub open spec fn replaced(base: Seq<String>, overlay: Option<Vec<String>>) -> Seq<Seq<char>> {
    match overlay {
        Some(o) => strs(o@),
        None => strs(base),
    }
}

fn merge_opt_array(base: &Vec<String>, overlay: &Option<Vec<String>>) -> (r: Vec<String>)
    ensures
        merged_array(r@, base@, *overlay),
{
    match overlay {
        Some(o) => SopsConfig::merge_array(base.as_slice(), o.as_slice()),
        None => copy_strings(base.as_slice()),
    }
}

fn replace_array(base: &Vec<String>, overlay: &Option<Vec<String>>) -> (r: Vec<String>)
    ensures
        strs(r@) == replaced(base@, *overlay),
{
    match overlay {
        Some(o) => copy_strings(o.as_slice()),
        None => copy_strings(base.as_slice()),
    }
}

fn pick_text(overlay: &Option<String>, base: &String) -> (r: String)
    ensures
        r@ == match overlay {
            Some(s) => s@,
            None => base@,
        },
{
    match overlay {
        Some(s) => s.clone(),
        None => base.clone(),
    }
}

/// The text of a layer's optional value, or the base text.
pub open spec fn text_or(overlay: Option<String>, base: String) -> Seq<char> {
    match overlay {
        Some(s) => s@,
        None => base@,
    }
}

/// The value a layer gives for a text field (`None` without the layer).
pub open spec fn layer_text(layer: Option<&RawSettings>, f: spec_fn(RawSettings) -> Option<String>) -> Option<String> {
    match layer {
        Some(l) => f(*l),
        None => None,
    }
}

/// The value a layer gives for an array field (`None` without the layer).
pub open spec fn layer_arr(layer: Option<&RawSettings>, f: spec_fn(RawSettings) -> Option<Vec<String>>) -> Option<Vec<String>> {
    match layer {
        Some(l) => f(*l),
        None => None,
    }
}

/// The first value given, from the highest layer down, else the default.
pub open spec fn final_text(env: Option<String>, vault: Option<String>, global: Option<String>, base: Seq<char>) -> Seq<char> {
    match env {
        Some(s) => s@,
        None => match vault {
            Some(s) => s@,
            None => match global {
                Some(s) => s@,
                None => base,
            },
        },
    }
}

/// The first optional value given, from the highest layer down, else the default.
pub open spec fn final_opt(env: Option<String>, vault: Option<String>, global: Option<String>, base: Option<String>) -> Option<Seq<char>> {
    match env {
        Some(s) => Some(s@),
        None => match vault {
            Some(s) => Some(s@),
            None => match global {
                Some(s) => Some(s@),
                None => opt_str(base),
            },
        },
    }
}

/// An array after all layers: the environment's array replaces everything;
/// else the vault's array is merged onto the global-or-default array.
pub open spec fn final_array(r: Seq<Seq<char>>, base: Seq<String>, global: Option<Vec<String>>, vault: Option<Vec<String>>, env: Option<Vec<String>>) -> bool {
    match env {
        Some(e) => r == strs(e@),
        None => match vault {
            Some(o) => sorted_unique(r) && r.to_set() == merge_set(replaced(base, global).to_set(), strs(o@)),
            None => r == replaced(base, global),
        },
    }
}

/// Get the path to the local config file in a vault directory.
pub fn vault_config_path(vault_dir: &str) -> (r: String)
    ensures
        r@ == join(vault_dir@, ".rsenv.toml"@),
{
    crate::pathstr::join_str(vault_dir, ".rsenv.toml")
}

/// `directories::ProjectDirs::from("", "", "rsenv")` and its `config_dir()`:
/// the platform's configuration directory for rsenv, which depends on the
/// environment of the process. Nothing is stated of it.
#[verifier::external_body]
fn project_config_dir() -> Option<String> {
    directories::ProjectDirs::from("", "", "rsenv").map(|d| d.config_dir().to_string_lossy().into_owned())
}

/// Get the XDG config directory for rsenv.
pub fn global_config_dir() -> Option<String> {
    project_config_dir()
}

/// Get the path to the global config file: `rsenv.toml` in the config
/// directory, when there is one.
pub fn global_config_path() -> (r: Option<String>)
    ensures
        r matches Some(p) ==> exists|d: Seq<char>| p@ == join(d, "rsenv.toml"@),
{
    match global_config_dir() {
        Some(d) => {
            let p = crate::pathstr::join_str(d.as_str(), "rsenv.toml");
            Some(p)
        },
        None => None,
    }
}

/// The default base directory: `.rsenv` in the home directory, else
/// `~/.rsenv`.
pub open spec fn default_base_dir_for(home: Option<Seq<char>>) -> Seq<char> {
    match home {
        Some(h) => join(h, ".rsenv"@),
        None => "~/.rsenv"@,
    }
}

/// `directories::BaseDirs::new()` and its `home_dir()`: this user's home
/// directory, which depends on the environment of the process. Nothing is
/// stated of it.
#[verifier::external_body]
fn home_dir() -> Option<String> {
    directories::BaseDirs::new().map(|d| d.home_dir().to_string_lossy().into_owned())
}

/// The default base directory for a given home directory.
pub fn base_dir_for(home: Option<&str>) -> (r: String)
    ensures
        r@ == default_base_dir_for(match home {
            Some(h) => Some(h@),
            None => None,
        }),
{
    match home {
        Some(h) => crate::pathstr::join_str(h, ".rsenv"),
        None => "~/.rsenv".to_string(),
    }
}

impl Settings {
    /// Get the vaults directory (base_dir/vaults).
    pub fn vaults_dir(&self) -> (r: String)
        ensures
            r@ == join(self.base_dir@, "vaults"@),
    {
        crate::pathstr::join_str(self.base_dir.as_str(), "vaults")
    }

    /// Merge overlay config onto self (base) with union semantics for arrays.
    pub fn merge_with(&self, overlay: &RawSettings) -> (r: Self)
        ensures
            r.base_dir@ == text_or(overlay.base_dir, self.base_dir),
            r.editor@ == text_or(overlay.editor, self.editor),
            opt_str(r.sops.gpg_key) == or_else(overlay.sops.gpg_key, self.sops.gpg_key),
            opt_str(r.sops.age_key) == or_else(overlay.sops.age_key, self.sops.age_key),
            merged_array(r.sops.file_extensions_enc@, self.sops.file_extensions_enc@, overlay.sops.file_extensions_enc),
            merged_array(r.sops.file_names_enc@, self.sops.file_names_enc@, overlay.sops.file_names_enc),
            merged_array(r.sops.file_extensions_dec@, self.sops.file_extensions_dec@, overlay.sops.file_extensions_dec),
            merged_array(r.sops.file_names_dec@, self.sops.file_names_dec@, overlay.sops.file_names_dec),
    {
        Settings {
            base_dir: pick_text(&overlay.base_dir, &self.base_dir),
            editor: pick_text(&overlay.editor, &self.editor),
            sops: self.sops.merge(&overlay.sops),
        }
    }

    /// Apply global config onto defaults with REPLACE semantics for arrays.
    pub fn apply_global(&self, global: &RawSettings) -> (r: Self)
        ensures
            r.replaces(*self, *global),
    {
        Settings {
            base_dir: pick_text(&global.base_dir, &self.base_dir),
            editor: pick_text(&global.editor, &self.editor),
            sops: self.sops.apply_global(&global.sops),
        }
    }

    /// `r` is `base` with every value that `layer` gives replacing the base's.
    pub open spec fn replaces(self, base: Self, layer: RawSettings) -> bool {
        &&& self.base_dir@ == text_or(layer.base_dir, base.base_dir)
        &&& self.editor@ == text_or(layer.editor, base.editor)
        &&& opt_str(self.sops.gpg_key) == or_else(layer.sops.gpg_key, base.sops.gpg_key)
        &&& opt_str(self.sops.age_key) == or_else(layer.sops.age_key, base.sops.age_key)
        &&& strs(self.sops.file_extensions_enc@) == replaced(base.sops.file_extensions_enc@, layer.sops.file_extensions_enc)
        &&& strs(self.sops.file_names_enc@) == replaced(base.sops.file_names_enc@, layer.sops.file_names_enc)
        &&& strs(self.sops.file_extensions_dec@) == replaced(base.sops.file_extensions_dec@, layer.sops.file_extensions_dec)
        &&& strs(self.sops.file_names_dec@) == replaced(base.sops.file_names_dec@, layer.sops.file_names_dec)
    }

    /// Apply `RSENV_*` environment overrides: every value they give replaces
    /// the current one (arrays included).
    pub fn apply_env_overrides(settings: Self, env: &RawSettings) -> (r: Self)
        ensures
            r.replaces(settings, *env),
    {
        settings.apply_global(env)
    }

    /// `self` is what the layers give in precedence order: the defaults, then
    /// the global config (arrays REPLACE), then the vault config (arrays
    /// UNION, `!x` removing), then the environment overrides (REPLACE).
    pub open spec fn resolved_from(
        self,
        defaults: Self,
        global: Option<&RawSettings>,
        vault: Option<&RawSettings>,
        env: &RawSettings,
    ) -> bool {
        &&& self.base_dir@ == final_text(
            env.base_dir,
            layer_text(vault, |l: RawSettings| l.base_dir),
            layer_text(global, |l: RawSettings| l.base_dir),
            defaults.base_dir@,
        )
        &&& self.editor@ == final_text(
            env.editor,
            layer_text(vault, |l: RawSettings| l.editor),
            layer_text(global, |l: RawSettings| l.editor),
            defaults.editor@,
        )
        &&& opt_str(self.sops.gpg_key) == final_opt(
            env.sops.gpg_key,
            layer_text(vault, |l: RawSettings| l.sops.gpg_key),
            layer_text(global, |l: RawSettings| l.sops.gpg_key),
            defaults.sops.gpg_key,
        )
        &&& opt_str(self.sops.age_key) == final_opt(
            env.sops.age_key,
            layer_text(vault, |l: RawSettings| l.sops.age_key),
            layer_text(global, |l: RawSettings| l.sops.age_key),
            defaults.sops.age_key,
        )
        &&& final_array(
            strs(self.sops.file_extensions_enc@),
            defaults.sops.file_extensions_enc@,
            layer_arr(global, |l: RawSettings| l.sops.file_extensions_enc),
            layer_arr(vault, |l: RawSettings| l.sops.file_extensions_enc),
            env.sops.file_extensions_enc,
        )
        &&& final_array(
            strs(self.sops.file_names_enc@),
            defaults.sops.file_names_enc@,
            layer_arr(global, |l: RawSettings| l.sops.file_names_enc),
            layer_arr(vault, |l: RawSettings| l.sops.file_names_enc),
            env.sops.file_names_enc,
        )
        &&& final_array(
            strs(self.sops.file_extensions_dec@),
            defaults.sops.file_extensions_dec@,
            layer_arr(global, |l: RawSettings| l.sops.file_extensions_dec),
            layer_arr(vault, |l: RawSettings| l.sops.file_extensions_dec),
            env.sops.file_extensions_dec,
        )
        &&& final_array(
            strs(self.sops.file_names_dec@),
            defaults.sops.file_names_dec@,
            layer_arr(global, |l: RawSettings| l.sops.file_names_dec),
            layer_arr(vault, |l: RawSettings| l.sops.file_names_dec),
            env.sops.file_names_dec,
        )
    }

    /// `self` is `m` with `~`, `$VAR` and `${VAR}` expanded in its path-like
    /// fields: the SOPS settings are `m`'s, and a field without any of these
    /// is `m`'s unchanged.
    pub open spec fn expanded_from(self, m: Self) -> bool {
        &&& self.sops == m.sops
        &&& crate::domain::entities::plain_path(m.base_dir@) ==> self.base_dir@ == m.base_dir@
        &&& crate::domain::entities::plain_path(m.editor@) ==> self.editor@ == m.editor@
    }

    /// Combine the layers in precedence order: defaults, then the global
    /// config (arrays REPLACE), then the vault config (arrays UNION, with
    /// `!x` removing), then the environment overrides (REPLACE).
    pub fn resolve_layers(
        defaults: Self,
        global: Option<&RawSettings>,
        vault: Option<&RawSettings>,
        env: &RawSettings,
    ) -> (r: Self)
        ensures
            r.resolved_from(defaults, global, vault, env),
    {
        let after_global = match global {
            Some(g) => defaults.apply_global(g),
            None => defaults,
        };
        let after_vault = match vault {
            Some(v) => after_global.merge_with(v),
            None => after_global,
        };
        Settings::apply_env_overrides(after_vault, env)
    }

    /// Expand `~`, `$VAR` and `${VAR}` in the path-like fields.
    pub fn expand_paths(&mut self)
        ensures
            final(self).sops == old(self).sops,
            crate::domain::entities::plain_path(old(self).base_dir@) ==> final(self).base_dir@ == old(self).base_dir@,
            crate::domain::entities::plain_path(old(self).editor@) ==> final(self).editor@ == old(self).editor@,
    {
        let b = crate::domain::entities::expand_env_vars(self.base_dir.as_str());
        let e = crate::domain::entities::expand_env_vars(self.editor.as_str());
        self.base_dir = b;
        self.editor = e;
    }

    /// Load settings with layered precedence: the defaults, then the global
    /// config (arrays REPLACE the defaults), then the vault config (arrays
    /// UNION with the global ones), then the `RSENV_*` overrides (REPLACE);
    /// `~` and `$VAR` are then expanded in the path-like fields. The caller
    /// reads and parses the layers that exist.
    pub fn load(
        defaults: Self,
        global: Option<&RawSettings>,
        vault: Option<&RawSettings>,
        env: &RawSettings,
    ) -> (r: Self)
        ensures
            exists|m: Self| m.resolved_from(defaults, global, vault, env) && r.expanded_from(m),
    {
        let mut current = Settings::resolve_layers(defaults, global, vault, env);
        let ghost m = current;
        current.expand_paths();
        assert(m.resolved_from(defaults, global, vault, env) && current.expanded_from(m));
        current
    }

    /// Load ONLY the global layer onto the defaults (arrays REPLACE), with
    /// paths expanded; no vault config, no environment overrides.
    pub fn load_global_only(defaults: Self, global: Option<&RawSettings>) -> (r: Self)
        ensures
            match global {
                Some(g) => exists|m: Self| m.replaces(defaults, *g) && r.expanded_from(m),
                None => r.expanded_from(defaults),
            },
    {
        let mut current = match global {
            Some(g) => defaults.apply_global(g),
            None => defaults,
        };
        let ghost m = current;
        current.expand_paths();
        assert(current.expanded_from(m));
        current
    }

    /// Load ONLY the vault-local layer onto the defaults (its values REPLACE
    /// the defaults'), with paths expanded; `None` when the vault has no
    /// config file (`vault` is `None`).
    pub fn load_vault_only(defaults: Self, vault: Option<&RawSettings>) -> (r: Option<Self>)
        ensures
            match vault {
                Some(v) => r matches Some(s) && exists|m: Self| m.replaces(defaults, *v) && s.expanded_from(m),
                None => r is None,
            },
    {
        match vault {
            Some(v) => {
                let mut current = defaults.apply_global(v);
                let ghost m = current;
                current.expand_paths();
                assert(m.replaces(defaults, *v) && current.expanded_from(m));
                Some(current)
            },
            None => None,
        }
    }

    /// The compiled defaults for a given `$EDITOR` (`None` when unset) and
    /// home directory: the editor is `$EDITOR`, else `vim`; the base
    /// directory is `<home>/.rsenv`, else `~/.rsenv`.
    pub fn defaults_for(editor_env: Option<String>, home: Option<&str>) -> (r: Self)
        ensures
            r.editor@ == match editor_env {
                Some(e) => e@,
                None => "vim"@,
            },
            r.base_dir@ == default_base_dir_for(match home {
                Some(h) => Some(h@),
                None => None,
            }),
            is_default_sops(r.sops),
    {
        let editor = match editor_env {
            Some(e) => e,
            None => "vim".to_string(),
        };
        Settings { base_dir: base_dir_for(home), editor, sops: SopsConfig::default() }
    }

    /// The compiled defaults for a given `$EDITOR`, with this user's home
    /// directory.
    pub fn defaults(editor_env: Option<String>) -> (r: Self)
        ensures
            r.editor@ == match editor_env {
                Some(e) => e@,
                None => "vim"@,
            },
            exists|h: Option<Seq<char>>| r.base_dir@ == default_base_dir_for(h),
            is_default_sops(r.sops),
    {
        let home = home_dir();
        match home {
            Some(h) => Settings::defaults_for(editor_env, Some(h.as_str())),
            None => Settings::defaults_for(editor_env, None),
        }
    }

    /// A template config file.
    pub fn template() -> (r: String)
        ensures
            r@ == TEMPLATE@,
    {
        TEMPLATE.to_owned()
    }
}

/// The template written by `rsenv config init`.
pub const TEMPLATE: &'static str = "# rsenv configuration
#
# Locations (by precedence, lowest to highest):
#   Global: ~/.config/rsenv/rsenv.toml  (defines your baseline)
#   Local:  <vault_dir>/.rsenv.toml     (project-specific additions)
#   Env:    RSENV_* environment variables (explicit overrides)
#
# Array Merge Semantics:
#   Global config REPLACES compiled defaults (defaults are just examples).
#   Local/vault config UNIONS with global (adds project-specific patterns).
#   Use \"!pattern\" in local config to REMOVE an inherited item:
#     file_extensions_enc = [\"yaml\", \"!env\"]  # adds yaml, removes env from global

# Base directory for rsenv (vaults stored in base_dir/vaults)
# base_dir = \"~/.rsenv\"

# Editor for editing env files
# editor = \"vim\"

[sops]
# GPG key fingerprint for SOPS encryption
# gpg_key = \"60A4127E82E218297532FAB6D750B66AE08F3B90\"

# Age public key (alternative to GPG)
# age_key = \"age1...\"

# File extensions to encrypt (merged with global config, use !ext to remove)
# file_extensions_enc = [\"envrc\", \"env\"]

# Exact filenames to encrypt (merged with global config, use !name to remove)
# file_names_enc = [\"dot_pypirc\", \"dot_pgpass\", \"kube_config\"]

# File extensions to decrypt (typically just .enc)
# file_extensions_dec = [\"enc\"]
";


/// A key shown in full when it has at most `n` chars, else its first `n`
/// chars followed by `...`.
pub open spec fn spec_truncated(key: Seq<char>, n: nat) -> Seq<char> {
    if key.len() > n {
        key.take(n as int) + "..."@
    } else {
        key
    }
}

/// A key as `config show` prints it: at most `n` chars, then `...`.
pub fn truncated_key(key: &str, n: usize) -> (r: String)
    ensures
        r@ == spec_truncated(key@, n as nat),
{
    let v = chars_of(key);
    if v.len() > n {
        let mut head = crate::text::slice(&v, 0, n);
        crate::text::push_str(&mut head, "...");
        assert(head@ =~= spec_truncated(key@, n as nat));
        crate::text::string_of(&head)
    } else {
        key.to_owned()
    }
}

/// A config file edited from its template: its text differs from the
/// template once both are trimmed.
pub fn edited_from_template(text: &str, template: &str) -> (b: bool)
    ensures
        b == (crate::text::trim(text@) != crate::text::trim(template@)),
{
    let a = crate::text::trim_vec(&chars_of(text));
    let t = crate::text::trim_vec(&chars_of(template));
    !eq_vec(&a, &t)
}

} // verus!
