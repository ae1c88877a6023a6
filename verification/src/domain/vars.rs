//! Environment variables of an env file: a map from name to value whose
//! entries are kept in name order (the order the variables are written in).
use vstd::prelude::*;

use crate::text::{chars_of, eq_vec, lemma_lex_total, lemma_lex_trans, lex_lt, lex_lt_exec,
    sorted_unique};

verus! {

/// The names of the entries.
pub open spec fn names(e: Seq<(String, String)>) -> Seq<Seq<char>> {
    e.map_values(|p: (String, String)| p.0@)
}

/// Some entry maps the name `k` to the value `v`.
pub open spec fn has_entry(e: Seq<(String, String)>, k: Seq<char>, v: Seq<char>) -> bool {
    exists|i: int| 0 <= i < e.len() && #[trigger] e[i].0@ == k && e[i].1@ == v
}

/// With names in strict order, two entries with the same name are one entry.
pub proof fn lemma_unique_name(e: Seq<(String, String)>, i: int, j: int)
    requires
        sorted_unique(names(e)),
        0 <= i < e.len(),
        0 <= j < e.len(),
        e[i].0@ == e[j].0@,
    ensures
        i == j,
{
    if i != j {
        let k = e[i].0@;
        assert(names(e)[i] == k && names(e)[j] == k);
        lemma_lex_total(k, k);
        if j < i {
            assert(lex_lt(names(e)[j], names(e)[i]));
        } else {
            assert(lex_lt(names(e)[i], names(e)[j]));
        }
    }
}

/// Environment variables: names mapped to values, kept in name order.
#[derive(Debug)]
pub struct VarMap {
    entries: Vec<(String, String)>,
}

impl VarMap {
    /// The entries are in strict name order.
    pub closed spec fn wf(&self) -> bool {
        sorted_unique(names(self.entries@))
    }

    /// The variable `k` has the value `v`.
    pub closed spec fn maps(&self, k: Seq<char>, v: Seq<char>) -> bool {
        has_entry(self.entries@, k, v)
    }

    /// An empty map.
    pub fn new() -> (r: Self)
        ensures
            r.wf(),
            forall|k: Seq<char>, v: Seq<char>| !r.maps(k, v),
    {
        let r = VarMap { entries: Vec::new() };
        assert(names(r.entries@) =~= Seq::<Seq<char>>::empty());
        r
    }

    /// The entries, in name order.
    pub fn entries(&self) -> (r: &Vec<(String, String)>)
        requires
            self.wf(),
        ensures
            sorted_unique(names(r@)),
            forall|k: Seq<char>, v: Seq<char>| has_entry(r@, k, v) == self.maps(k, v),
    {
        &self.entries
    }

    /// Set `k` to `v`, replacing an earlier value.
    pub fn insert(&mut self, k: String, v: String)
        requires
            old(self).wf(),
        ensures
            final(self).wf(),
            forall|t: Seq<char>, w: Seq<char>| #[trigger] final(self).maps(t, w) == if t == k@ {
                w == v@
            } else {
                old(self).maps(t, w)
            },
    {
        let ghost old_e = self.entries@;
        let kv = chars_of(k.as_str());
        let mut i: usize = 0;
        while i < self.entries.len() && self.name_before(i, &kv)
            invariant
                i <= self.entries.len(),
                self.entries@ == old_e,
                sorted_unique(names(old_e)),
                kv@ == k@,
                forall|j: int| 0 <= j < i ==> lex_lt(#[trigger] names(old_e)[j], k@),
            decreases self.entries.len() - i,
        {
            i = i + 1;
        }
        let same = if i < self.entries.len() {
            let ni = chars_of(self.entries[i].0.as_str());
            eq_vec(&ni, &kv)
        } else {
            false
        };
        let ghost kk = k@;
        let ghost vv = v@;
        if same {
            self.entries.set(i, (k, v));
            let ghost ne = self.entries@;
            assert(names(ne) =~= names(old_e)) by {
                assert(forall|j: int| 0 <= j < ne.len() ==> names(ne)[j] == names(old_e)[j]);
            }
            proof { self.lemma_update_view(old_e, i as int, kk, vv); }
        } else {
            proof {
                if i < old_e.len() {
                    lemma_lex_total(names(old_e)[i as int], kk);
                }
            }
            self.entries.insert(i, (k, v));
            proof { self.lemma_insert_view(old_e, i as int, kk, vv); }
        }
    }

    fn name_before(&self, i: usize, kv: &Vec<char>) -> (b: bool)
        requires
            i < self.entries@.len(),
        ensures
            b == lex_lt(names(self.entries@)[i as int], kv@),
    {
        let ni = chars_of(self.entries[i].0.as_str());
        lex_lt_exec(&ni, kv)
    }

    proof fn lemma_update_view(&self, old_e: Seq<(String, String)>, i: int, k: Seq<char>, v: Seq<char>)
        requires
            sorted_unique(names(old_e)),
            0 <= i < old_e.len(),
            old_e[i].0@ == k,
            self.entries@.len() == old_e.len(),
            self.entries@[i].0@ == k,
            self.entries@[i].1@ == v,
            forall|j: int| 0 <= j < old_e.len() && j != i ==> #[trigger] self.entries@[j] == old_e[j],
            names(self.entries@) == names(old_e),
        ensures
            self.wf(),
            forall|t: Seq<char>, w: Seq<char>| #[trigger] has_entry(self.entries@, t, w) == if t == k {
                w == v
            } else {
                has_entry(old_e, t, w)
            },
    {
        let ne = self.entries@;
        assert forall|t: Seq<char>, w: Seq<char>| #[trigger] has_entry(ne, t, w) == if t == k {
            w == v
        } else {
            has_entry(old_e, t, w)
        } by {
            if has_entry(ne, t, w) {
                let j = choose|j: int| 0 <= j < ne.len() && #[trigger] ne[j].0@ == t && ne[j].1@ == w;
                if j == i {
                } else {
                    assert(ne[j] == old_e[j]);
                    if t == k {
                        assert(names(ne)[j] == names(old_e)[j]);
                        lemma_unique_name(old_e, i, j);
                    }
                }
            }
            if t == k && w == v {
                assert(ne[i].0@ == t && ne[i].1@ == w);
            }
            if t != k && has_entry(old_e, t, w) {
                let j = choose|j: int| 0 <= j < old_e.len() && #[trigger] old_e[j].0@ == t && old_e[j].1@ == w;
                assert(j != i);
                assert(ne[j] == old_e[j]);
                assert(ne[j].0@ == t && ne[j].1@ == w);
            }
        }
    }

    proof fn lemma_insert_view(&self, old_e: Seq<(String, String)>, i: int, k: Seq<char>, v: Seq<char>)
        requires
            sorted_unique(names(old_e)),
            0 <= i <= old_e.len(),
            forall|j: int| 0 <= j < i ==> lex_lt(#[trigger] names(old_e)[j], k),
            i < old_e.len() ==> lex_lt(k, names(old_e)[i]),
            self.entries@.len() == old_e.len() + 1,
            self.entries@[i].0@ == k,
            self.entries@[i].1@ == v,
            forall|j: int| 0 <= j < i ==> #[trigger] self.entries@[j] == old_e[j],
            forall|j: int| i < j <= old_e.len() ==> #[trigger] self.entries@[j] == old_e[j - 1],
        ensures
            self.wf(),
            forall|t: Seq<char>, w: Seq<char>| #[trigger] has_entry(self.entries@, t, w) == if t == k {
                w == v
            } else {
                has_entry(old_e, t, w)
            },
    {
        let ne = self.entries@;
        let nn = names(ne);
        let on = names(old_e);
        assert forall|a: int, b: int| 0 <= a < b < nn.len() implies lex_lt(#[trigger] nn[a], #[trigger] nn[b]) by {
            if b < i {
                assert(nn[a] == on[a] && nn[b] == on[b]);
            } else if b == i {
                assert(nn[a] == on[a]);
            } else if a < i {
                assert(nn[a] == on[a] && nn[b] == on[b - 1]);
                if b - 1 == i {
                    lemma_lex_trans(on[a], k, on[i]);
                } else {
                    lemma_lex_trans(on[a], k, on[i]);
                    lemma_lex_trans(on[a], on[i], on[b - 1]);
                }
            } else if a == i {
                assert(nn[b] == on[b - 1]);
                if b - 1 > i {
                    lemma_lex_trans(k, on[i], on[b - 1]);
                }
            } else {
                assert(nn[a] == on[a - 1] && nn[b] == on[b - 1]);
            }
        }
        assert(self.wf());
        assert forall|t: Seq<char>, w: Seq<char>| #[trigger] has_entry(ne, t, w) == if t == k {
            w == v
        } else {
            has_entry(old_e, t, w)
        } by {
            if has_entry(ne, t, w) {
                let j = choose|j: int| 0 <= j < ne.len() && #[trigger] ne[j].0@ == t && ne[j].1@ == w;
                if j == i {
                } else {
                    assert(nn[j] == t);
                    assert(nn[i] == k);
                    if t == k {
                        lemma_unique_name(ne, i, j);
                    }
                    if j < i {
                        assert(ne[j] == old_e[j]);
                        assert(old_e[j].0@ == t && old_e[j].1@ == w);
                    } else {
                        assert(ne[j] == old_e[j - 1]);
                        assert(old_e[j - 1].0@ == t && old_e[j - 1].1@ == w);
                    }
                }
            }
            if t == k && w == v {
                assert(ne[i].0@ == t && ne[i].1@ == w);
            }
            if t != k && has_entry(old_e, t, w) {
                let j = choose|j: int| 0 <= j < old_e.len() && #[trigger] old_e[j].0@ == t && old_e[j].1@ == w;
                if j < i {
                    assert(ne[j] == old_e[j]);
                    assert(ne[j].0@ == t && ne[j].1@ == w);
                } else {
                    assert(ne[j + 1] == old_e[j]);
                    assert(ne[j + 1].0@ == t && ne[j + 1].1@ == w);
                }
            }
        }
    }
}

} // verus!
