//! Building the trees of env files found in a directory: each file names
//! its parents in a `# rsenv:` directive; the roots are the files no other
//! names as a child.
use vstd::prelude::*;

use crate::application::services::environment::{contains_string, directive_words_exec, names_path};
use crate::config::strs;
use crate::domain::arena::{NodeData, TreeArena};
use crate::domain::entities::expand_env_vars;
use crate::domain::error::DomainError;
use crate::infrastructure::traits::FileSystem;
use crate::infrastructure::walk::walk_dir_strict;
use crate::pathstr::{extension_vec, join_str, parent, parent_str};
use crate::text::{chars_of, eq_str, split_lines, string_of};

verus! {

/// The parent → children relation recorded by a scan: each parent path with
/// the files that name it, in the order found.
pub open spec fn cache_view(c: Seq<(String, Vec<String>)>) -> Seq<(Seq<char>, Seq<Seq<char>>)> {
    c.map_values(|e: (String, Vec<String>)| (e.0@, strs(e.1@)))
}

/// Some recorded parent has `x` among its children.
pub open spec fn is_child(cache: Seq<(Seq<char>, Seq<Seq<char>>)>, x: Seq<char>) -> bool {
    exists|i: int| 0 <= i < cache.len() && (#[trigger] cache[i]).1.contains(x)
}

/// `x` is a recorded parent.
pub open spec fn is_parent(cache: Seq<(Seq<char>, Seq<Seq<char>>)>, x: Seq<char>) -> bool {
    exists|i: int| 0 <= i < cache.len() && (#[trigger] cache[i]).0 == x
}

/// `k` is the first slot of the relation at which `x` is recorded as a
/// parent.
pub open spec fn is_first_slot(cache: Seq<(Seq<char>, Seq<Seq<char>>)>, x: Seq<char>, k: int) -> bool {
    &&& 0 <= k < cache.len()
    &&& cache[k].0 == x
    &&& forall|j: int| 0 <= j < k ==> (#[trigger] cache[j]).0 != x
}

/// The first slot at which `x` is recorded as a parent, if any.
pub open spec fn parent_slot(cache: Seq<(Seq<char>, Seq<Seq<char>>)>, x: Seq<char>) -> Option<int> {
    if exists|k: int| is_first_slot(cache, x, k) {
        Some(choose|k: int| is_first_slot(cache, x, k))
    } else {
        None
    }
}

/// The relation with `child` added to the children of `parent`: appended
/// to its slot when `parent` is recorded, else a new slot at the end.
pub open spec fn with_relation(cache: Seq<(Seq<char>, Seq<Seq<char>>)>, parent: Seq<char>, child: Seq<char>) -> Seq<(Seq<char>, Seq<Seq<char>>)> {
    match parent_slot(cache, parent) {
        Some(k) => cache.update(k, (parent, cache[k].1.push(child))),
        None => cache.push((parent, seq![child])),
    }
}

/// The first slot is unique.
proof fn lemma_first_slot(cache: Seq<(Seq<char>, Seq<Seq<char>>)>, x: Seq<char>, k: int)
    requires
        is_first_slot(cache, x, k),
    ensures
        parent_slot(cache, x) == Some(k),
{
    let c = choose|q: int| is_first_slot(cache, x, q);
    assert(is_first_slot(cache, x, c));
    if c < k {
        assert(cache[c].0 != x);
    } else if k < c {
        assert(cache[k].0 != x);
    }
}

/// With `x` recorded in no slot there is no first one.
proof fn lemma_no_slot(cache: Seq<(Seq<char>, Seq<Seq<char>>)>, x: Seq<char>)
    requires
        forall|j: int| 0 <= j < cache.len() ==> (#[trigger] cache[j]).0 != x,
    ensures
        parent_slot(cache, x) is None,
{
    if exists|k: int| is_first_slot(cache, x, k) {
        let c = choose|q: int| is_first_slot(cache, x, q);
        assert(cache[c].0 == x);
    }
}

/// `c` is recorded among the children of `p`.
pub open spec fn records(cache: Seq<(Seq<char>, Seq<Seq<char>>)>, p: Seq<char>, c: Seq<char>) -> bool {
    exists|k: int| 0 <= k < cache.len() && (#[trigger] cache[k]).0 == p && cache[k].1.contains(c)
}

/// Recording a relation records the child under the parent, and keeps every
/// relation recorded before.
pub proof fn law_relation_recorded(cache: Seq<(Seq<char>, Seq<Seq<char>>)>, p: Seq<char>, c: Seq<char>)
    ensures
        records(with_relation(cache, p, c), p, c),
        forall|q: Seq<char>, d: Seq<char>| records(cache, q, d) ==> #[trigger] records(with_relation(cache, p, c), q, d),
{
    let r = with_relation(cache, p, c);
    match parent_slot(cache, p) {
        Some(k) => {
            let cs = choose|q: int| is_first_slot(cache, p, q);
            assert(is_first_slot(cache, p, cs));
            assert(r[k].1 == cache[k].1.push(c));
            assert(r[k].1[cache[k].1.len() as int] == c);
            assert(records(r, p, c));
            assert forall|q: Seq<char>, d: Seq<char>| records(cache, q, d) implies #[trigger] records(r, q, d) by {
                let j = choose|j: int| 0 <= j < cache.len() && (#[trigger] cache[j]).0 == q && cache[j].1.contains(d);
                if j == k {
                    let m = choose|m: int| 0 <= m < cache[j].1.len() && cache[j].1[m] == d;
                    assert(r[j].1[m] == d);
                } else {
                    assert(r[j] == cache[j]);
                }
            }
        },
        None => {
            assert(r[cache.len() as int] == (p, seq![c]));
            assert(seq![c][0] == c);
            assert(records(r, p, c));
            assert forall|q: Seq<char>, d: Seq<char>| records(cache, q, d) implies #[trigger] records(r, q, d) by {
                let j = choose|j: int| 0 <= j < cache.len() && (#[trigger] cache[j]).0 == q && cache[j].1.contains(d);
                assert(r[j] == cache[j]);
            }
        },
    }
}

/// Each directive word resolved against the file's directory and
/// canonicalised; `None` where canonicalising failed. One entry per word.
fn resolve_parents<F: FileSystem>(fs: &F, current_dir: &str, words: &Vec<Vec<char>>) -> (r: Vec<Option<String>>)
    ensures
        r.len() == words.len(),
{
    let mut out: Vec<Option<String>> = Vec::new();
    let mut w: usize = 0;
    while w < words.len()
        invariant
            w <= words.len(),
            out.len() == w,
        decreases words.len() - w,
    {
        let expanded = expand_env_vars(string_of(&words[w]).as_str());
        let parent_path = join_str(current_dir, expanded.as_str());
        match fs.canonicalize(parent_path.as_str()) {
            Ok(c) => out.push(Some(c)),
            Err(_) => out.push(None),
        }
        w = w + 1;
    }
    out
}

/// The roots of the scanned trees: the recorded parents that are nobody's
/// child, in order, then the files in no relation at all.
pub open spec fn roots(cache: Seq<(Seq<char>, Seq<Seq<char>>)>, files: Seq<Seq<char>>) -> Seq<Seq<char>> {
    cache.map_values(|e: (Seq<char>, Seq<Seq<char>>)| e.0).filter(|p: Seq<char>| !is_child(cache, p))
        + files.filter(|f: Seq<char>| !is_parent(cache, f) && !is_child(cache, f))
}

/// Constructs hierarchical trees from environment files.
#[derive(Debug)]
pub struct TreeBuilder {
    relationship_cache: Vec<(String, Vec<String>)>,
    visited_paths: Vec<String>,
    all_files: Vec<String>,
}

impl TreeBuilder {
    /// A builder with nothing scanned yet.
    pub fn new() -> (r: Self)
        ensures
            r.cache().len() == 0,
            r.files().len() == 0,
    {
        TreeBuilder { relationship_cache: Vec::new(), visited_paths: Vec::new(), all_files: Vec::new() }
    }

    /// The relation recorded by the last scan.
    pub closed spec fn cache(&self) -> Seq<(Seq<char>, Seq<Seq<char>>)> {
        cache_view(self.relationship_cache@)
    }

    /// The env files found by the last scan.
    pub closed spec fn files(&self) -> Seq<Seq<char>> {
        strs(self.all_files@)
    }

    /// Build the trees of all `.env` files under `directory_path`: one tree
    /// per root. A missing directory, or a path that is no directory, is an
    /// error; so is a relation without any root, or a file reached twice
    /// while building a tree (a cycle).
    pub fn build_from_directory<F: FileSystem>(&mut self, fs: &F, directory_path: &str) -> (r: Result<Vec<TreeArena>, DomainError>)
        ensures
            r matches Ok(trees) ==> forall|i: int| 0 <= i < trees.len() ==> (#[trigger] trees@[i]).wf() && trees@[i].root_slot() == Some(0usize),
            r matches Ok(trees) ==> trees.len() == roots(final(self).cache(), final(self).files()).len(),
    {
        if !fs.path_exists(directory_path) {
            return Err(DomainError::FileNotFound(directory_path.to_owned()));
        }
        if !fs.is_dir(directory_path) {
            return Err(DomainError::InvalidEnvFile { path: directory_path.to_owned(), message: "Not a directory".to_owned() });
        }
        self.relationship_cache = Vec::new();
        self.visited_paths = Vec::new();
        self.all_files = Vec::new();
        match self.scan_directory(fs, directory_path) {
            Ok(()) => {},
            Err(e) => return Err(e),
        }
        let root_files = self.find_root_nodes();
        if root_files.len() == 0 && self.relationship_cache.len() > 0 {
            return Err(DomainError::CycleDetected(self.relationship_cache[0].0.clone()));
        }
        let mut trees: Vec<TreeArena> = Vec::new();
        let mut i: usize = 0;
        while i < root_files.len()
            invariant
                i <= root_files.len(),
                trees.len() == i,
                strs(root_files@) == roots(self.cache(), self.files()),
                forall|j: int| 0 <= j < trees.len() ==> (#[trigger] trees@[j]).wf() && trees@[j].root_slot() == Some(0usize),
            decreases root_files.len() - i,
        {
            self.visited_paths = Vec::new();
            let tree = match self.build_tree(root_files[i].as_str()) {
                Ok(t) => t,
                Err(e) => return Err(e),
            };
            trees.push(tree);
            i = i + 1;
        }
        Ok(trees)
    }

    /// Record every `.env` file under the directory and the parents it
    /// names.
    fn scan_directory<F: FileSystem>(&mut self, fs: &F, directory_path: &str) -> (r: Result<(), DomainError>) {
        let entries = match walk_dir_strict(directory_path) {
            Ok(e) => e,
            Err(message) => return Err(DomainError::InvalidEnvFile { path: directory_path.to_owned(), message }),
        };
        let mut i: usize = 0;
        while i < entries.len()
            invariant
                i <= entries.len(),
            decreases entries.len() - i,
        {
            let entry = &entries[i];
            i = i + 1;
            if !entry.is_file {
                continue;
            }
            let is_env = match extension_vec(&chars_of(entry.path.as_str())) {
                Some(e) => eq_str(&e, "env"),
                None => false,
            };
            if !is_env {
                continue;
            }
            let abs_path = match fs.canonicalize(entry.path.as_str()) {
                Ok(p) => p,
                Err(_) => return Err(DomainError::InvalidParent(entry.path.clone())),
            };
            if !contains_string(&self.all_files, &abs_path) {
                self.all_files.push(abs_path);
            }
            match self.process_file(fs, entry.path.as_str()) {
                Ok(()) => {},
                Err(e) => return Err(e),
            }
        }
        Ok(())
    }

    /// Record the parents named by the directives of one file; parents that
    /// cannot be resolved on disk are passed over.
    fn process_file<F: FileSystem>(&mut self, fs: &F, path: &str) -> (r: Result<(), DomainError>)
        ensures
            final(self).files() == old(self).files(),
            forall|q: Seq<char>, d: Seq<char>| records(old(self).cache(), q, d) ==> #[trigger] records(final(self).cache(), q, d),
    {
        let content = match fs.read_to_string(path) {
            Ok(c) => c,
            Err(_) => return Err(DomainError::FileNotFound(path.to_owned())),
        };
        let abs_path = match fs.canonicalize(path) {
            Ok(p) => p,
            Err(_) => return Err(DomainError::InvalidParent(path.to_owned())),
        };
        let current_dir = match parent_str(abs_path.as_str()) {
            Some(d) => d,
            None => return Err(DomainError::InvalidParent(path.to_owned())),
        };
        let ls = split_lines(&chars_of(content.as_str()));
        let mut l: usize = 0;
        while l < ls.len()
            invariant
                l <= ls.len(),
                self.files() == old(self).files(),
                forall|q: Seq<char>, d: Seq<char>| records(old(self).cache(), q, d) ==> #[trigger] records(self.cache(), q, d),
            decreases ls.len() - l,
        {
            let words = directive_words_exec(&ls[l]);
            let parents = resolve_parents(fs, current_dir.as_str(), &words);
            self.record_parents(&parents, &abs_path);
            l = l + 1;
        }
        Ok(())
    }

    /// Record `child` under each parent that could be resolved, in order.
    fn record_parents(&mut self, parents: &Vec<Option<String>>, child: &String)
        ensures
            final(self).files() == old(self).files(),
            forall|i: int| 0 <= i < parents.len() ==> (#[trigger] parents@[i] matches Some(p) ==> records(final(self).cache(), p@, child@)),
            forall|q: Seq<char>, d: Seq<char>| records(old(self).cache(), q, d) ==> #[trigger] records(final(self).cache(), q, d),
    {
        let mut i: usize = 0;
        while i < parents.len()
            invariant
                i <= parents.len(),
                self.files() == old(self).files(),
                forall|j: int| 0 <= j < i ==> (#[trigger] parents@[j] matches Some(p) ==> records(self.cache(), p@, child@)),
                forall|q: Seq<char>, d: Seq<char>| records(old(self).cache(), q, d) ==> #[trigger] records(self.cache(), q, d),
            decreases parents.len() - i,
        {
            if let Some(p) = &parents[i] {
                let ghost before = self.cache();
                self.add_relation(p.clone(), child.clone());
                proof {
                    law_relation_recorded(before, p@, child@);
                }
            }
            i = i + 1;
        }
    }

    /// Record `child` under `parent`.
    fn add_relation(&mut self, parent: String, child: String)
        ensures
            final(self).cache() == with_relation(old(self).cache(), parent@, child@),
            final(self).files() == old(self).files(),
    {
        let ghost old_rc = self.relationship_cache@;
        let ghost cache = self.cache();
        let ghost cv = child@;
        let mut k: usize = 0;
        while k < self.relationship_cache.len()
            invariant
                k <= self.relationship_cache.len(),
                self.relationship_cache@ == old_rc,
                cache == cache_view(old_rc),
                cache == old(self).cache(),
                self.files() == old(self).files(),
                cv == child@,
                forall|j: int| 0 <= j < k ==> (#[trigger] cache[j]).0 != parent@,
            decreases self.relationship_cache.len() - k,
        {
            if self.relationship_cache[k].0 == parent {
                proof {
                    assert(cache[k as int].0 == parent@);
                    lemma_first_slot(cache, parent@, k as int);
                }
                let (p, mut children) = self.relationship_cache.remove(k);
                let ghost oc = children@;
                children.push(child);
                proof {
                    assert(strs(children@) =~= strs(oc).push(cv));
                    assert(p@ == parent@);
                }
                self.relationship_cache.insert(k, (p, children));
                proof {
                    assert(self.relationship_cache@ =~= old_rc.update(k as int, (p, children)));
                    assert(self.cache() =~= cache.update(k as int, (parent@, cache[k as int].1.push(cv))));
                }
                return;
            }
            k = k + 1;
        }
        proof {
            lemma_no_slot(cache, parent@);
        }
        let mut children: Vec<String> = Vec::new();
        children.push(child);
        proof {
            assert(strs(children@) =~= seq![cv]);
        }
        self.relationship_cache.push((parent, children));
        proof {
            assert(self.cache() =~= cache.push((parent@, seq![cv])));
        }
    }

    /// `x` is among the children of some recorded parent.
    fn is_child_exec(&self, x: &String) -> (b: bool)
        ensures
            b == is_child(self.cache(), x@),
    {
        let ghost cache = self.cache();
        let mut i: usize = 0;
        while i < self.relationship_cache.len()
            invariant
                i <= self.relationship_cache.len(),
                cache == self.cache(),
                forall|j: int| 0 <= j < i ==> !(#[trigger] cache[j]).1.contains(x@),
            decreases self.relationship_cache.len() - i,
        {
            let found = contains_string(&self.relationship_cache[i].1, x);
            proof {
                assert(cache[i as int].1 == strs(self.relationship_cache@[i as int].1@));
                if found {
                    let q = choose|q: int| 0 <= q < self.relationship_cache@[i as int].1@.len() && #[trigger] self.relationship_cache@[i as int].1@[q]@ == x@;
                    assert(cache[i as int].1[q] == x@);
                } else {
                    assert forall|q: int| 0 <= q < cache[i as int].1.len() implies cache[i as int].1[q] != x@ by {
                        assert(cache[i as int].1[q] == self.relationship_cache@[i as int].1@[q]@);
                    }
                }
            }
            if found {
                return true;
            }
            i = i + 1;
        }
        false
    }

    /// `x` is a recorded parent.
    fn is_parent_exec(&self, x: &String) -> (b: bool)
        ensures
            b == is_parent(self.cache(), x@),
    {
        let ghost cache = self.cache();
        let mut i: usize = 0;
        while i < self.relationship_cache.len()
            invariant
                i <= self.relationship_cache.len(),
                cache == self.cache(),
                forall|j: int| 0 <= j < i ==> (#[trigger] cache[j]).0 != x@,
            decreases self.relationship_cache.len() - i,
        {
            if self.relationship_cache[i].0 == *x {
                assert(cache[i as int].0 == x@);
                return true;
            }
            i = i + 1;
        }
        false
    }

    /// The roots: recorded parents that are nobody's child, then files in
    /// no relation.
    pub fn find_root_nodes(&self) -> (r: Vec<String>)
        ensures
            strs(r@) == roots(self.cache(), self.files()),
    {
        let ghost cache = self.cache();
        let ghost keys = cache.map_values(|e: (Seq<char>, Seq<Seq<char>>)| e.0);
        let ghost p1 = |p: Seq<char>| !is_child(cache, p);
        let ghost p2 = |f: Seq<char>| !is_parent(cache, f) && !is_child(cache, f);
        let mut out: Vec<String> = Vec::new();
        let mut i: usize = 0;
        proof {
            reveal(Seq::filter);
            assert(keys.take(0) =~= Seq::<Seq<char>>::empty());
        }
        while i < self.relationship_cache.len()
            invariant
                i <= self.relationship_cache.len(),
                cache == self.cache(),
                keys == cache.map_values(|e: (Seq<char>, Seq<Seq<char>>)| e.0),
                p1 == (|p: Seq<char>| !is_child(cache, p)),
                strs(out@) == keys.take(i as int).filter(p1),
            decreases self.relationship_cache.len() - i,
        {
            let key = &self.relationship_cache[i].0;
            proof {
                reveal(Seq::filter);
                assert(keys.take(i + 1).drop_last() =~= keys.take(i as int));
                assert(keys.take(i + 1).last() == key@);
            }
            let ghost before = strs(out@);
            if !self.is_child_exec(key) {
                out.push(key.clone());
                assert(strs(out@) =~= before.push(key@));
            }
            i = i + 1;
        }
        assert(keys.take(i as int) =~= keys);
        let ghost head = strs(out@);
        let ghost files = self.files();
        let mut j: usize = 0;
        proof {
            reveal(Seq::filter);
            assert(files.take(0) =~= Seq::<Seq<char>>::empty());
            assert(head + files.take(0).filter(p2) =~= head);
        }
        while j < self.all_files.len()
            invariant
                j <= self.all_files.len(),
                cache == self.cache(),
                files == self.files(),
                p2 == (|f: Seq<char>| !is_parent(cache, f) && !is_child(cache, f)),
                strs(out@) == head + files.take(j as int).filter(p2),
            decreases self.all_files.len() - j,
        {
            let f = &self.all_files[j];
            proof {
                reveal(Seq::filter);
                assert(files.take(j + 1).drop_last() =~= files.take(j as int));
                assert(files.take(j + 1).last() == f@);
            }
            let ghost before = strs(out@);
            if !self.is_parent_exec(f) && !self.is_child_exec(f) {
                out.push(f.clone());
                assert(strs(out@) =~= before.push(f@));
                assert(head + files.take(j + 1).filter(p2) =~= (head + files.take(j as int).filter(p2)).push(f@));
            } else {
                assert(head + files.take(j + 1).filter(p2) =~= head + files.take(j as int).filter(p2));
            }
            j = j + 1;
        }
        assert(files.take(j as int) =~= files);
        out
    }

    /// The recorded children of `path`, if it is a recorded parent.
    fn children_of(&self, path: &String) -> (r: Option<usize>)
        ensures
            r matches Some(k) ==> k < self.relationship_cache.len(),
            match r {
                Some(k) => parent_slot(self.cache(), path@) == Some(k as int),
                None => parent_slot(self.cache(), path@) is None,
            },
    {
        let ghost cache = self.cache();
        let mut k: usize = 0;
        while k < self.relationship_cache.len()
            invariant
                k <= self.relationship_cache.len(),
                cache == self.cache(),
                forall|j: int| 0 <= j < k ==> (#[trigger] cache[j]).0 != path@,
            decreases self.relationship_cache.len() - k,
        {
            if self.relationship_cache[k].0 == *path {
                proof {
                    assert(cache[k as int].0 == path@);
                    lemma_first_slot(cache, path@, k as int);
                }
                return Some(k);
            }
            k = k + 1;
        }
        proof {
            lemma_no_slot(cache, path@);
        }
        None
    }

    /// Build the tree under `root_path` depth-first; a file reached twice is
    /// a cycle.
    fn build_tree(&mut self, root_path: &str) -> (r: Result<TreeArena, DomainError>)
        ensures
            r matches Ok(t) ==> t.wf() && t.root_slot() == Some(0usize) && t.nodes().len() > 0 && t.nodes()[0].data.file_path@ == root_path@,
            final(self).cache() == old(self).cache(),
            final(self).files() == old(self).files(),
            !names_path(old(self).visited_paths@, root_path@) && old(self).visited_paths.len() < usize::MAX
                && parent(root_path@) is Some && parent_slot(old(self).cache(), root_path@) is None
                ==> (r matches Ok(t) && t.nodes().len() == 1),
    {
        let ghost leaf = !names_path(self.visited_paths@, root_path@) && self.visited_paths.len() < usize::MAX
            && parent(root_path@) is Some && parent_slot(self.cache(), root_path@) is None;
        let mut tree = TreeArena::new();
        let mut stack: Vec<(String, Option<usize>)> = Vec::new();
        stack.push((root_path.to_owned(), None));
        while stack.len() > 0
            invariant
                tree.wf(),
                self.cache() == old(self).cache(),
                self.files() == old(self).files(),
                tree.nodes().len() == 0 ==> stack.len() == 1 && stack@[0].0@ == root_path@ && stack@[0].1 is None && tree.root_slot() is None,
                tree.nodes().len() > 0 ==> tree.root_slot() == Some(0usize) && tree.nodes()[0].data.file_path@ == root_path@,
                tree.nodes().len() > 0 ==> forall|q: int| 0 <= q < stack.len() ==> (#[trigger] stack@[q]).1 is Some,
                tree.nodes().len() == 0 ==> self.visited_paths@ == old(self).visited_paths@,
                leaf == (!names_path(old(self).visited_paths@, root_path@) && old(self).visited_paths.len() < usize::MAX
                    && parent(root_path@) is Some && parent_slot(old(self).cache(), root_path@) is None),
                leaf && tree.nodes().len() > 0 ==> stack.len() == 0 && tree.nodes().len() == 1,
            decreases usize::MAX - self.visited_paths.len(), stack.len(),
        {
            let (current_path, parent_idx) = stack.pop().unwrap();
            if contains_string(&self.visited_paths, &current_path) {
                return Err(DomainError::CycleDetected(current_path));
            }
            if self.visited_paths.len() == usize::MAX || tree.node_count() >= usize::MAX / 4 {
                return Err(DomainError::InvalidEnvFile { path: current_path, message: "tree too large".to_owned() });
            }
            self.visited_paths.push(current_path.clone());
            let base_path = match parent_str(current_path.as_str()) {
                Some(b) => b,
                None => return Err(DomainError::InvalidParent(current_path)),
            };
            let ghost was_empty = tree.nodes().len() == 0;
            let current_idx = tree.insert_node(NodeData { base_path, file_path: current_path.clone() }, parent_idx);
            if let Some(k) = self.children_of(&current_path) {
                let n = self.relationship_cache[k].1.len();
                let mut c: usize = 0;
                while c < n
                    invariant
                        c <= n,
                        k < self.relationship_cache.len(),
                        n == self.relationship_cache@[k as int].1.len(),
                        forall|q: int| 0 <= q < stack.len() ==> (#[trigger] stack@[q]).1 is Some,
                    decreases n - c,
                {
                    let child = self.relationship_cache[k].1[c].clone();
                    stack.push((child, Some(current_idx)));
                    c = c + 1;
                }
            }
        }
        Ok(tree)
    }
}

} // verus!
