//! Trees of env files, held in a `generational_arena` arena. Nodes refer to
//! each other by slot number; nodes are only ever added, so every slot is
//! filled in turn and its generation stays 0.
use vstd::prelude::*;

verus! {

/// `generational_arena::Arena`, carried through.
#[verifier::external_type_specification]
#[verifier::external_body]
#[verifier::reject_recursive_types(T)]
pub struct ExArena<T>(generational_arena::Arena<T>);

/// The files a tree node stands for.
#[derive(Debug)]
pub struct NodeData {
    pub base_path: String,
    pub file_path: String,
}

/// A node of an env file tree: its data and the slots of its parent and
/// children.
#[derive(Debug)]
pub struct TreeNode {
    pub data: NodeData,
    pub parent: Option<usize>,
    pub children: Vec<usize>,
}

/// The nodes an arena holds, slot by slot.
pub uninterp spec fn arena_nodes(a: generational_arena::Arena<TreeNode>) -> Seq<TreeNode>;

/// Every slot of the arena was filled by an insertion in turn, and none was
/// ever freed.
pub uninterp spec fn arena_dense(a: generational_arena::Arena<TreeNode>) -> bool;

/// `generational_arena::Arena::new`: an empty arena.
#[verifier::external_body]
fn arena_new() -> (a: generational_arena::Arena<TreeNode>)
    ensures
        arena_nodes(a) == Seq::<TreeNode>::empty(),
        arena_dense(a),
{
    generational_arena::Arena::new()
}

/// `generational_arena::Arena::insert`: in an arena whose slots were filled
/// in turn and never freed, the node goes into the next slot (the crate's
/// free list runs through the slots in order), whose number is returned.
/// The bound keeps the crate's doubling of its capacity from overflowing.
#[verifier::external_body]
fn arena_insert(a: &mut generational_arena::Arena<TreeNode>, node: TreeNode) -> (k: usize)
    requires
        arena_dense(*old(a)),
        arena_nodes(*old(a)).len() < usize::MAX / 4,
    ensures
        arena_dense(*final(a)),
        arena_nodes(*final(a)) == arena_nodes(*old(a)).push(node),
        k == arena_nodes(*old(a)).len(),
{
    a.insert(node).into_raw_parts().0
}

/// `generational_arena::Arena::get` at slot `k`, generation 0: the node in
/// that slot, if there is one.
#[verifier::external_body]
fn arena_get(a: &generational_arena::Arena<TreeNode>, k: usize) -> (r: Option<&TreeNode>)
    requires
        arena_dense(*a),
    ensures
        k < arena_nodes(*a).len() ==> r == Some(&arena_nodes(*a)[k as int]),
        k >= arena_nodes(*a).len() ==> r is None,
{
    a.get(generational_arena::Index::from_raw_parts(k, 0))
}

/// `generational_arena::Arena`'s `IndexMut` at slot `k`, generation 0: the
/// node in that slot, to change in place.
#[verifier::external_body]
fn arena_node_mut(a: &mut generational_arena::Arena<TreeNode>, k: usize) -> (r: &mut TreeNode)
    requires
        arena_dense(*old(a)),
        k < arena_nodes(*old(a)).len(),
    ensures
        *r == arena_nodes(*old(a))[k as int],
        arena_dense(*final(a)),
        arena_nodes(*final(a)) == arena_nodes(*old(a)).update(k as int, *final(r)),
{
    &mut a[generational_arena::Index::from_raw_parts(k, 0)]
}

/// `generational_arena::Arena::len`: the number of nodes held, which for
/// an arena filled in turn is the number of slots filled.
#[verifier::external_body]
fn arena_len(a: &generational_arena::Arena<TreeNode>) -> (r: usize)
    ensures
        arena_dense(*a) ==> r == arena_nodes(*a).len(),
{
    a.len()
}

/// Every child lies in a later slot of the arena.
pub open spec fn children_later(nodes: Seq<TreeNode>) -> bool {
    forall|i: int, j: int| 0 <= i < nodes.len() && 0 <= j < nodes[i].children.len() ==> i < #[trigger] nodes[i].children@[j] < nodes.len()
}

/// The height of the subtree at slot `i` (0 outside the arena).
pub open spec fn height(nodes: Seq<TreeNode>, i: int) -> nat
    decreases nodes.len() - i, 1nat, 0nat,
{
    if 0 <= i < nodes.len() {
        1 + max_height(nodes, i, nodes[i].children@)
    } else {
        0
    }
}

/// The largest height among the subtrees at `cs`, children of slot `i`.
pub open spec fn max_height(nodes: Seq<TreeNode>, i: int, cs: Seq<usize>) -> nat
    decreases nodes.len() - i, 0nat, cs.len(),
{
    if cs.len() == 0 {
        0
    } else {
        let c = cs.last() as int;
        let h = if i < c < nodes.len() {
            height(nodes, c)
        } else {
            0
        };
        let m = max_height(nodes, i, cs.drop_last());
        if h > m {
            h
        } else {
            m
        }
    }
}

/// The file paths of the leaves under slot `i`, left to right.
pub open spec fn leaves(nodes: Seq<TreeNode>, i: int) -> Seq<Seq<char>>
    decreases nodes.len() - i, 1nat, 0nat,
{
    if 0 <= i < nodes.len() {
        if nodes[i].children.len() == 0 {
            seq![nodes[i].data.file_path@]
        } else {
            leaves_of(nodes, i, nodes[i].children@)
        }
    } else {
        seq![]
    }
}

/// The leaves under the children `cs` of slot `i`, in order.
pub open spec fn leaves_of(nodes: Seq<TreeNode>, i: int, cs: Seq<usize>) -> Seq<Seq<char>>
    decreases nodes.len() - i, 0nat, cs.len(),
{
    if cs.len() == 0 {
        seq![]
    } else {
        let c = cs.last() as int;
        leaves_of(nodes, i, cs.drop_last()) + if i < c < nodes.len() {
            leaves(nodes, c)
        } else {
            seq![]
        }
    }
}

/// The slots under slot `i` in depth-first order, each node before its
/// children.
pub open spec fn preorder_from(nodes: Seq<TreeNode>, i: int) -> Seq<usize>
    decreases nodes.len() - i, 1nat, 0nat,
{
    if 0 <= i < nodes.len() {
        seq![i as usize] + preorder_of(nodes, i, nodes[i].children@)
    } else {
        seq![]
    }
}

/// The preorders of the children `cs` of slot `i`, in order.
pub open spec fn preorder_of(nodes: Seq<TreeNode>, i: int, cs: Seq<usize>) -> Seq<usize>
    decreases nodes.len() - i, 0nat, cs.len(),
{
    if cs.len() == 0 {
        seq![]
    } else {
        let c = cs.last() as int;
        preorder_of(nodes, i, cs.drop_last()) + if i < c < nodes.len() {
            preorder_from(nodes, c)
        } else {
            seq![]
        }
    }
}

/// The slots under slot `i` in depth-first order, each node after its
/// children.
pub open spec fn postorder_from(nodes: Seq<TreeNode>, i: int) -> Seq<usize>
    decreases nodes.len() - i, 1nat, 0nat,
{
    if 0 <= i < nodes.len() {
        postorder_of(nodes, i, nodes[i].children@) + seq![i as usize]
    } else {
        seq![]
    }
}

/// The postorders of the children `cs` of slot `i`, in order.
pub open spec fn postorder_of(nodes: Seq<TreeNode>, i: int, cs: Seq<usize>) -> Seq<usize>
    decreases nodes.len() - i, 0nat, cs.len(),
{
    if cs.len() == 0 {
        seq![]
    } else {
        let c = cs.last() as int;
        postorder_of(nodes, i, cs.drop_last()) + if i < c < nodes.len() {
            postorder_from(nodes, c)
        } else {
            seq![]
        }
    }
}

/// A tree of env files in an arena.
#[derive(Debug)]
pub struct TreeArena {
    arena: generational_arena::Arena<TreeNode>,
    root: Option<usize>,
}

impl TreeArena {
    /// The nodes, slot by slot.
    pub closed spec fn nodes(&self) -> Seq<TreeNode> {
        arena_nodes(self.arena)
    }

    /// The root's slot.
    pub closed spec fn root_slot(&self) -> Option<usize> {
        self.root
    }

    /// Slots filled in turn, children after their parent, the root a node.
    pub closed spec fn wf(&self) -> bool {
        &&& arena_dense(self.arena)
        &&& arena_nodes(self.arena).len() <= usize::MAX / 4
        &&& children_later(arena_nodes(self.arena))
        &&& self.root matches Some(r) ==> r < arena_nodes(self.arena).len()
    }

    /// An empty tree.
    pub fn new() -> (r: Self)
        ensures
            r.wf(),
            r.nodes() == Seq::<TreeNode>::empty(),
            r.root_slot() is None,
    {
        TreeArena { arena: arena_new(), root: None }
    }

    /// The number of nodes.
    pub closed spec fn len(&self) -> nat {
        arena_nodes(self.arena).len()
    }

    /// Add a node under `parent` (registering it among the parent's
    /// children when the parent exists), or as the root when there is no
    /// parent; returns its slot.
    pub fn insert_node(&mut self, data: NodeData, parent: Option<usize>) -> (k: usize)
        requires
            old(self).wf(),
            old(self).nodes().len() < usize::MAX / 4,
        ensures
            final(self).wf(),
            k == old(self).nodes().len(),
            final(self).nodes().len() == k + 1,
            final(self).nodes()[k as int].data == data,
            final(self).nodes()[k as int].parent == parent,
            final(self).nodes()[k as int].children@ == Seq::<usize>::empty(),
            forall|i: int| 0 <= i < k && Some(i as usize) != parent ==> #[trigger] final(self).nodes()[i] == old(self).nodes()[i],
            parent is Some && parent.unwrap() < k ==> final(self).nodes()[parent.unwrap() as int].children@ == old(self).nodes()[parent.unwrap() as int].children@.push(k),
            parent is Some && parent.unwrap() < k ==> final(self).nodes()[parent.unwrap() as int].data == old(self).nodes()[parent.unwrap() as int].data,
            parent is None ==> final(self).root_slot() == Some(k),
            parent is Some ==> final(self).root_slot() == old(self).root_slot(),
    {
        let ghost old_nodes = arena_nodes(self.arena);
        let node = TreeNode { data, parent, children: Vec::new() };
        let k = arena_insert(&mut self.arena, node);
        match parent {
            Some(p) => {
                if p < k {
                    let ghost mid = arena_nodes(self.arena);
                    let pn = arena_node_mut(&mut self.arena, p);
                    pn.children.push(k);
                    proof {
                        let nodes = arena_nodes(self.arena);
                        assert(nodes == mid.update(p as int, nodes[p as int]));
                        assert forall|i: int, j: int| 0 <= i < nodes.len() && 0 <= j < nodes[i].children.len() implies i < #[trigger] nodes[i].children@[j] < nodes.len() by {
                            if i == p {
                                if j < old_nodes[i].children.len() {
                                    assert(nodes[i].children@[j] == old_nodes[i].children@[j]);
                                }
                            } else if i < k {
                                assert(nodes[i] == old_nodes[i]);
                            }
                        }
                    }
                }
            },
            None => {
                self.root = Some(k);
            },
        }
        k
    }

    /// The node in slot `idx`, if there is one.
    pub fn get_node(&self, idx: usize) -> (r: Option<&TreeNode>)
        requires
            self.wf(),
        ensures
            idx < self.nodes().len() ==> r == Some(&self.nodes()[idx as int]),
            idx >= self.nodes().len() ==> r is None,
    {
        arena_get(&self.arena, idx)
    }

    /// The height of the tree (0 when empty).
    pub fn depth(&self) -> (r: usize)
        requires
            self.wf(),
        ensures
            r == match self.root_slot() {
                Some(root) => height(self.nodes(), root as int),
                None => 0,
            },
    {
        match self.root {
            Some(root) => self.calculate_depth(root),
            None => 0,
        }
    }

    /// The height of the subtree at `idx`.
    fn calculate_depth(&self, idx: usize) -> (r: usize)
        requires
            self.wf(),
        ensures
            r == height(self.nodes(), idx as int),
            idx < self.nodes().len() ==> r <= self.nodes().len() - idx,
        decreases self.nodes().len() - idx,
    {
        let ghost nodes = self.nodes();
        match self.get_node(idx) {
            None => 0,
            Some(node) => {
                let ghost cs = node.children@;
                let mut m: usize = 0;
                let mut j: usize = 0;
                assert(cs.take(0) =~= Seq::<usize>::empty());
                while j < node.children.len()
                    invariant
                        self.wf(),
                        nodes == self.nodes(),
                        idx < nodes.len(),
                        *node == nodes[idx as int],
                        cs == node.children@,
                        j <= node.children.len(),
                        m == max_height(nodes, idx as int, cs.take(j as int)),
                        m <= nodes.len() - idx - 1,
                    decreases node.children.len() - j,
                {
                    let c = node.children[j];
                    assert(idx < c < nodes.len());
                    let d = self.calculate_depth(c);
                    proof {
                        assert(cs.take(j + 1).drop_last() =~= cs.take(j as int));
                        assert(cs.take(j + 1).last() == c);
                    }
                    if d > m {
                        m = d;
                    }
                    j = j + 1;
                }
                assert(cs.take(j as int) =~= cs);
                1 + m
            },
        }
    }

    /// The file paths of the leaves, left to right.
    pub fn leaf_nodes(&self) -> (r: Vec<String>)
        requires
            self.wf(),
        ensures
            crate::config::strs(r@) == match self.root_slot() {
                Some(root) => leaves(self.nodes(), root as int),
                None => seq![],
            },
    {
        let mut out: Vec<String> = Vec::new();
        match self.root {
            Some(root) => {
                self.collect_leaves(root, &mut out);
                assert(crate::config::strs(out@) =~= Seq::<Seq<char>>::empty() + leaves(self.nodes(), root as int));
            },
            None => {
                assert(crate::config::strs(out@) =~= Seq::<Seq<char>>::empty());
            },
        }
        out
    }

    /// Append the leaves under `idx` to `out`.
    fn collect_leaves(&self, idx: usize, out: &mut Vec<String>)
        requires
            self.wf(),
        ensures
            crate::config::strs(final(out)@) == crate::config::strs(old(out)@) + leaves(self.nodes(), idx as int),
        decreases self.nodes().len() - idx,
    {
        let ghost nodes = self.nodes();
        let ghost start = crate::config::strs(out@);
        match self.get_node(idx) {
            None => {
                assert(crate::config::strs(out@) =~= start + Seq::<Seq<char>>::empty());
            },
            Some(node) => {
                if node.children.len() == 0 {
                    out.push(node.data.file_path.clone());
                    assert(crate::config::strs(out@) =~= start + seq![node.data.file_path@]);
                } else {
                    let ghost cs = node.children@;
                    let mut j: usize = 0;
                    assert(cs.take(0) =~= Seq::<usize>::empty());
                    assert(crate::config::strs(out@) =~= start + leaves_of(nodes, idx as int, cs.take(0)));
                    while j < node.children.len()
                        invariant
                            self.wf(),
                            nodes == self.nodes(),
                            idx < nodes.len(),
                            *node == nodes[idx as int],
                            cs == node.children@,
                            j <= node.children.len(),
                            crate::config::strs(out@) == start + leaves_of(nodes, idx as int, cs.take(j as int)),
                        decreases node.children.len() - j,
                    {
                        let c = node.children[j];
                        assert(idx < c < nodes.len());
                        let ghost before = crate::config::strs(out@);
                        self.collect_leaves(c, out);
                        proof {
                            assert(cs.take(j + 1).drop_last() =~= cs.take(j as int));
                            assert(cs.take(j + 1).last() == c);
                            assert(crate::config::strs(out@) =~= start + leaves_of(nodes, idx as int, cs.take(j + 1)));
                        }
                        j = j + 1;
                    }
                    assert(cs.take(j as int) =~= cs);
                }
            },
        }
    }

    /// The slots in depth-first order, each node before its children.
    pub fn preorder(&self) -> (r: Vec<usize>)
        requires
            self.wf(),
        ensures
            r@ == match self.root_slot() {
                Some(root) => preorder_from(self.nodes(), root as int),
                None => seq![],
            },
    {
        let mut out: Vec<usize> = Vec::new();
        match self.root {
            Some(root) => {
                self.walk(root, &mut out, true);
                assert(out@ =~= Seq::<usize>::empty() + preorder_from(self.nodes(), root as int));
            },
            None => {},
        }
        out
    }

    /// The slots in depth-first order, each node after its children.
    pub fn postorder(&self) -> (r: Vec<usize>)
        requires
            self.wf(),
        ensures
            r@ == match self.root_slot() {
                Some(root) => postorder_from(self.nodes(), root as int),
                None => seq![],
            },
    {
        let mut out: Vec<usize> = Vec::new();
        match self.root {
            Some(root) => {
                self.walk(root, &mut out, false);
                assert(out@ =~= Seq::<usize>::empty() + postorder_from(self.nodes(), root as int));
            },
            None => {},
        }
        out
    }

    /// Append the slots under `idx` in preorder (or postorder).
    fn walk(&self, idx: usize, out: &mut Vec<usize>, pre: bool)
        requires
            self.wf(),
        ensures
            final(out)@ == old(out)@ + if pre {
                preorder_from(self.nodes(), idx as int)
            } else {
                postorder_from(self.nodes(), idx as int)
            },
        decreases self.nodes().len() - idx,
    {
        let ghost nodes = self.nodes();
        let ghost start = out@;
        match self.get_node(idx) {
            None => {
                assert(out@ =~= start + Seq::<usize>::empty());
            },
            Some(node) => {
                if pre {
                    out.push(idx);
                }
                let ghost head = out@;
                let ghost cs = node.children@;
                let mut j: usize = 0;
                assert(cs.take(0) =~= Seq::<usize>::empty());
                assert(head + preorder_of(nodes, idx as int, cs.take(0)) =~= head);
                assert(head + postorder_of(nodes, idx as int, cs.take(0)) =~= head);
                while j < node.children.len()
                    invariant
                        self.wf(),
                        nodes == self.nodes(),
                        idx < nodes.len(),
                        *node == nodes[idx as int],
                        cs == node.children@,
                        j <= node.children.len(),
                        out@ == head + if pre {
                            preorder_of(nodes, idx as int, cs.take(j as int))
                        } else {
                            postorder_of(nodes, idx as int, cs.take(j as int))
                        },
                    decreases node.children.len() - j,
                {
                    let c = node.children[j];
                    assert(idx < c < nodes.len());
                    self.walk(c, out, pre);
                    proof {
                        assert(cs.take(j + 1).drop_last() =~= cs.take(j as int));
                        assert(cs.take(j + 1).last() == c);
                        if pre {
                            assert(out@ =~= head + preorder_of(nodes, idx as int, cs.take(j + 1)));
                        } else {
                            assert(out@ =~= head + postorder_of(nodes, idx as int, cs.take(j + 1)));
                        }
                    }
                    j = j + 1;
                }
                assert(cs.take(j as int) =~= cs);
                if !pre {
                    out.push(idx);
                }
                proof {
                    if pre {
                        assert(out@ =~= start + preorder_from(nodes, idx as int));
                    } else {
                        assert(out@ =~= start + postorder_from(nodes, idx as int));
                    }
                }
            },
        }
    }

    /// The number of nodes.
    pub fn node_count(&self) -> (r: usize)
        requires
            self.wf(),
        ensures
            r == self.nodes().len(),
    {
        arena_len(&self.arena)
    }

    /// The root's slot, if the tree has a root.
    pub fn root(&self) -> (r: Option<usize>)
        ensures
            r == self.root_slot(),
    {
        self.root
    }
}

} // verus!
