//! An arena-backed document tree.
//!
//! Nodes live in one growable arena and are addressed by index. Every child
//! index is strictly greater than its parent's index, which keeps the tree
//! acyclic by construction and gives preorder traversal an easy termination
//! measure. Structural mutations bump a generation counter; observers (the
//! live collections) compare generations to detect that their cache is stale.

use vstd::prelude::*;

verus! {

/// The closed set of element kinds a node can have. A live collection's
/// filter classifies nodes by this tag rather than by open-ended runtime
/// type inspection.
#[derive(Clone, Copy, PartialEq, Eq, Structural, Debug)]
pub enum ElementKind {
    DataList,
    OptionLike,
    Other,
}

/// One node of the tree: its element kind and the indices of its children,
/// in document order.
pub struct NodeData {
    pub kind: ElementKind,
    pub children: Vec<usize>,
}

/// The document tree. `nodes` is the arena; `generation` counts structural
/// mutations and never decreases.
pub struct Tree {
    pub nodes: Vec<NodeData>,
    pub generation: u64,
}

/// Every child index points into the arena and is strictly greater than its
/// parent's index: the parent/child relation is acyclic and preorder
/// traversal terminates.
pub open spec fn nodes_wf(nodes: Seq<NodeData>) -> bool {
    forall|i: int, k: int|
        0 <= i < nodes.len() && 0 <= k < nodes[i].children@.len()
            ==> i < #[trigger] nodes[i].children@[k] && nodes[i].children@[k] < nodes.len()
}

/// The preorder traversal of the subtree rooted at `id`: the node itself,
/// then the traversals of its children, left to right.
pub open spec fn preorder_from(nodes: Seq<NodeData>, id: usize) -> Seq<usize>
    decreases nodes.len() - id, nodes[id as int].children@.len() + 1,
        when nodes_wf(nodes) && id < nodes.len()
{
    seq![id] + preorder_kids(nodes, id, 0)
}

/// The concatenated preorder traversals of the children of `id` from
/// position `k` on.
pub open spec fn preorder_kids(nodes: Seq<NodeData>, id: usize, k: int) -> Seq<usize>
    decreases nodes.len() - id, nodes[id as int].children@.len() - k,
        when nodes_wf(nodes) && id < nodes.len() && 0 <= k <= nodes[id as int].children@.len()
{
    if k == nodes[id as int].children@.len() {
        Seq::empty()
    } else {
        preorder_from(nodes, nodes[id as int].children@[k]) + preorder_kids(nodes, id, k + 1)
    }
}

/// The preorder list of the strict descendants of `root`: the root itself is
/// not a member.
pub open spec fn descendant_preorder(nodes: Seq<NodeData>, root: usize) -> Seq<usize> {
    preorder_kids(nodes, root, 0)
}

impl Tree {
    pub open spec fn wf(self) -> bool {
        nodes_wf(self.nodes@)
    }

    /// An empty tree: no nodes, generation zero.
    pub fn new() -> (t: Tree)
        ensures
            t.wf(),
            t.nodes@.len() == 0,
            t.generation == 0,
    {
        Tree { nodes: Vec::new(), generation: 0 }
    }

    /// Creates a detached node of the given kind and returns its index.
    /// Counts as a structural mutation.
    pub fn new_node(&mut self, kind: ElementKind) -> (id: usize)
        requires
            old(self).wf(),
            old(self).generation < u64::MAX,
        ensures
            final(self).wf(),
            id == old(self).nodes@.len(),
            final(self).nodes@.len() == old(self).nodes@.len() + 1,
            final(self).nodes@[id as int].kind == kind,
            final(self).nodes@[id as int].children@ == Seq::<usize>::empty(),
            forall|j: int| 0 <= j < old(self).nodes@.len()
                ==> final(self).nodes@[j] == old(self).nodes@[j],
            final(self).generation == old(self).generation + 1,
    {
        let id = self.nodes.len();
        self.nodes.push(NodeData { kind, children: Vec::new() });
        self.generation = self.generation + 1;
        id
    }

    /// Creates a new node of the given kind and appends it as the last child
    /// of `parent`; returns the new node's index.
    pub fn add_child(&mut self, parent: usize, kind: ElementKind) -> (id: usize)
        requires
            old(self).wf(),
            parent < old(self).nodes@.len(),
            old(self).generation < u64::MAX,
        ensures
            final(self).wf(),
            id == old(self).nodes@.len(),
            final(self).nodes@.len() == old(self).nodes@.len() + 1,
            final(self).nodes@[id as int].kind == kind,
            final(self).nodes@[id as int].children@ == Seq::<usize>::empty(),
            final(self).nodes@[parent as int].kind == old(self).nodes@[parent as int].kind,
            final(self).nodes@[parent as int].children@
                == old(self).nodes@[parent as int].children@.push(id),
            forall|j: int| 0 <= j < old(self).nodes@.len() && j != parent
                ==> final(self).nodes@[j] == old(self).nodes@[j],
            final(self).generation == old(self).generation + 1,
    {
        let id = self.nodes.len();
        self.nodes.push(NodeData { kind, children: Vec::new() });
        let parent_node = &mut self.nodes[parent];
        parent_node.children.push(id);
        self.generation = self.generation + 1;
        proof {
            assert forall|i: int, k: int|
                0 <= i < self.nodes@.len() && 0 <= k < self.nodes@[i].children@.len()
                implies i < #[trigger] self.nodes@[i].children@[k]
                    && self.nodes@[i].children@[k] < self.nodes@.len() by {
                if i == parent {
                    if k < old(self).nodes@[parent as int].children@.len() {
                        assert(self.nodes@[i].children@[k]
                            == old(self).nodes@[parent as int].children@[k]);
                    }
                } else if i < id {
                    assert(self.nodes@[i] == old(self).nodes@[i]);
                }
            }
        }
        id
    }

    /// Creates a new node of the given kind and inserts it among the children
    /// of `parent` at position `pos`; returns the new node's index.
    pub fn insert_child(&mut self, parent: usize, pos: usize, kind: ElementKind) -> (id: usize)
        requires
            old(self).wf(),
            parent < old(self).nodes@.len(),
            pos <= old(self).nodes@[parent as int].children@.len(),
            old(self).generation < u64::MAX,
        ensures
            final(self).wf(),
            id == old(self).nodes@.len(),
            final(self).nodes@.len() == old(self).nodes@.len() + 1,
            final(self).nodes@[id as int].kind == kind,
            final(self).nodes@[id as int].children@ == Seq::<usize>::empty(),
            final(self).nodes@[parent as int].kind == old(self).nodes@[parent as int].kind,
            final(self).nodes@[parent as int].children@
                == old(self).nodes@[parent as int].children@.insert(pos as int, id),
            forall|j: int| 0 <= j < old(self).nodes@.len() && j != parent
                ==> final(self).nodes@[j] == old(self).nodes@[j],
            final(self).generation == old(self).generation + 1,
    {
        let id = self.nodes.len();
        self.nodes.push(NodeData { kind, children: Vec::new() });
        let parent_node = &mut self.nodes[parent];
        parent_node.children.insert(pos, id);
        self.generation = self.generation + 1;
        proof {
            let oldc = old(self).nodes@[parent as int].children@;
            assert forall|i: int, k: int|
                0 <= i < self.nodes@.len() && 0 <= k < self.nodes@[i].children@.len()
                implies i < #[trigger] self.nodes@[i].children@[k]
                    && self.nodes@[i].children@[k] < self.nodes@.len() by {
                if i == parent {
                    let c = self.nodes@[i].children@[k];
                    if k < pos {
                        assert(c == oldc[k]);
                    } else if k == pos {
                        assert(c == id);
                    } else {
                        assert(c == oldc[k - 1]);
                    }
                } else if i < id {
                    assert(self.nodes@[i] == old(self).nodes@[i]);
                }
            }
        }
        id
    }

    /// Removes the child at position `pos` from `parent`'s child list. The
    /// removed node (and its subtree) stays in the arena but is detached.
    pub fn remove_child(&mut self, parent: usize, pos: usize)
        requires
            old(self).wf(),
            parent < old(self).nodes@.len(),
            pos < old(self).nodes@[parent as int].children@.len(),
            old(self).generation < u64::MAX,
        ensures
            final(self).wf(),
            final(self).nodes@.len() == old(self).nodes@.len(),
            final(self).nodes@[parent as int].kind == old(self).nodes@[parent as int].kind,
            final(self).nodes@[parent as int].children@
                == old(self).nodes@[parent as int].children@.remove(pos as int),
            forall|j: int| 0 <= j < old(self).nodes@.len() && j != parent
                ==> final(self).nodes@[j] == old(self).nodes@[j],
            final(self).generation == old(self).generation + 1,
    {
        let parent_node = &mut self.nodes[parent];
        parent_node.children.remove(pos);
        self.generation = self.generation + 1;
        proof {
            let oldc = old(self).nodes@[parent as int].children@;
            assert forall|i: int, k: int|
                0 <= i < self.nodes@.len() && 0 <= k < self.nodes@[i].children@.len()
                implies i < #[trigger] self.nodes@[i].children@[k]
                    && self.nodes@[i].children@[k] < self.nodes@.len() by {
                if i == parent {
                    let c = self.nodes@[i].children@[k];
                    if k < pos {
                        assert(c == oldc[k]);
                    } else {
                        assert(c == oldc[k + 1]);
                    }
                } else {
                    assert(self.nodes@[i] == old(self).nodes@[i]);
                }
            }
        }
    }

    /// How many nodes the arena holds (attached or detached).
    pub fn node_count(&self) -> (n: usize)
        ensures
            n == self.nodes@.len(),
    {
        self.nodes.len()
    }

    /// The element kind of the node at `id`.
    pub fn kind_of(&self, id: usize) -> (k: ElementKind)
        requires
            id < self.nodes@.len(),
        ensures
            k == self.nodes@[id as int].kind,
    {
        self.nodes[id].kind
    }
}

} // verus!
