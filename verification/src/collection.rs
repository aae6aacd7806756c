//! A live, filtered view over the descendants of a tree node.
//!
//! A collection is bound at creation to one root node and one filter, both
//! immutable for its life. `members` returns the preorder list of the root's
//! strict descendants that the filter accepts, at the tree's current shape.
//! The list is cached together with the tree generation it was computed at;
//! any structural mutation bumps the generation, so the next read sees the
//! cache as stale and recomputes. Invalidation is coarse (whole collection)
//! and recomputation is lazy (on the next read only).

use vstd::prelude::*;

use crate::tree::{descendant_preorder, preorder_from, preorder_kids, ElementKind, NodeData, Tree};

verus! {

/// A pure, deterministic predicate classifying whether a node belongs to a
/// collection. A closed enumeration: each variant is one classification rule.
#[derive(Clone, Copy, PartialEq, Eq, Structural, Debug)]
pub enum Filter {
    /// Accepts nodes whose kind is `ElementKind::OptionLike`.
    IsOptionLike,
    /// Accepts nodes of exactly the given kind.
    OfKind(ElementKind),
    /// Accepts every node.
    Any,
}

/// What `Filter::classify` decides for the node at `id`, given the root the
/// collection is bound to.
pub open spec fn spec_classify(nodes: Seq<NodeData>, f: Filter, id: usize, root: usize) -> bool {
    match f {
        Filter::IsOptionLike => nodes[id as int].kind == ElementKind::OptionLike,
        Filter::OfKind(k) => nodes[id as int].kind == k,
        Filter::Any => true,
    }
}

/// The subsequence of `s` whose nodes the filter accepts, in the order of `s`.
pub open spec fn matches_of(nodes: Seq<NodeData>, f: Filter, root: usize, s: Seq<usize>) -> Seq<
    usize,
>
    decreases s.len(),
{
    if s.len() == 0 {
        Seq::empty()
    } else if spec_classify(nodes, f, s[0], root) {
        seq![s[0]] + matches_of(nodes, f, root, s.drop_first())
    } else {
        matches_of(nodes, f, root, s.drop_first())
    }
}

/// Filtering distributes over concatenation.
pub proof fn lemma_matches_distributes(
    nodes: Seq<NodeData>,
    f: Filter,
    root: usize,
    a: Seq<usize>,
    b: Seq<usize>,
)
    ensures
        matches_of(nodes, f, root, a + b) == matches_of(nodes, f, root, a) + matches_of(
            nodes,
            f,
            root,
            b,
        ),
    decreases a.len(),
{
    if a.len() == 0 {
        assert(a + b =~= b);
        assert(matches_of(nodes, f, root, a) + matches_of(nodes, f, root, b) =~= matches_of(
            nodes,
            f,
            root,
            b,
        ));
    } else {
        assert((a + b).drop_first() =~= a.drop_first() + b);
        assert((a + b)[0] == a[0]);
        lemma_matches_distributes(nodes, f, root, a.drop_first(), b);
        if spec_classify(nodes, f, a[0], root) {
            assert(seq![a[0]] + (matches_of(nodes, f, root, a.drop_first()) + matches_of(
                nodes,
                f,
                root,
                b,
            )) =~= (seq![a[0]] + matches_of(nodes, f, root, a.drop_first())) + matches_of(
                nodes,
                f,
                root,
                b,
            ));
        }
    }
}

/// The members of a collection bound to `root` with filter `f`, at tree shape
/// `nodes`: the preorder list of the strict descendants of `root` that the
/// filter accepts.
pub open spec fn spec_members(nodes: Seq<NodeData>, root: usize, f: Filter) -> Seq<usize> {
    matches_of(nodes, f, root, descendant_preorder(nodes, root))
}

impl Filter {
    /// Decides whether the node at `id` belongs to a collection rooted at
    /// `root`. Pure and deterministic.
    pub fn classify(&self, t: &Tree, id: usize, root: usize) -> (r: bool)
        requires
            id < t.nodes@.len(),
        ensures
            r == spec_classify(t.nodes@, *self, id, root),
    {
        match self {
            Filter::IsOptionLike => {
                let k = t.nodes[id].kind;
                k == ElementKind::OptionLike
            },
            Filter::OfKind(want) => {
                let k = t.nodes[id].kind;
                k == *want
            },
            Filter::Any => true,
        }
    }
}

/// Appends to `out` the accepted nodes of the preorder traversal of the
/// subtree rooted at `id` (including `id` itself).
fn collect_node(t: &Tree, root: usize, f: Filter, id: usize, out: &mut Vec<usize>)
    requires
        t.wf(),
        id < t.nodes@.len(),
    ensures
        final(out)@ == old(out)@ + matches_of(t.nodes@, f, root, preorder_from(t.nodes@, id)),
    decreases t.nodes@.len() - id, 1int,
{
    if f.classify(t, id, root) {
        out.push(id);
    }
    proof {
        assert(preorder_from(t.nodes@, id) == seq![id] + preorder_kids(t.nodes@, id, 0));
        lemma_matches_distributes(t.nodes@, f, root, seq![id], preorder_kids(t.nodes@, id, 0));
        assert(seq![id].drop_first() =~= Seq::<usize>::empty());
        assert(matches_of(t.nodes@, f, root, Seq::<usize>::empty()) =~= Seq::<usize>::empty());
        assert(seq![id][0] == id);
        if spec_classify(t.nodes@, f, id, root) {
            assert(matches_of(t.nodes@, f, root, seq![id]) =~= seq![id]);
            assert(out@ =~= old(out)@ + matches_of(t.nodes@, f, root, seq![id]));
        } else {
            assert(matches_of(t.nodes@, f, root, seq![id]) =~= Seq::<usize>::empty());
            assert(out@ =~= old(out)@ + matches_of(t.nodes@, f, root, seq![id]));
        }
    }
    collect_kids(t, root, f, id, out);
    proof {
        assert(old(out)@ + matches_of(t.nodes@, f, root, seq![id]) + matches_of(
            t.nodes@,
            f,
            root,
            preorder_kids(t.nodes@, id, 0),
        ) =~= old(out)@ + (matches_of(t.nodes@, f, root, seq![id]) + matches_of(
            t.nodes@,
            f,
            root,
            preorder_kids(t.nodes@, id, 0),
        )));
    }
}

/// Appends to `out` the accepted nodes of the preorder traversals of the
/// children of `id`, left to right (`id` itself is not a candidate).
fn collect_kids(t: &Tree, root: usize, f: Filter, id: usize, out: &mut Vec<usize>)
    requires
        t.wf(),
        id < t.nodes@.len(),
    ensures
        final(out)@ == old(out)@ + matches_of(t.nodes@, f, root, preorder_kids(t.nodes@, id, 0)),
    decreases t.nodes@.len() - id, 0int,
{
    let n = t.nodes[id].children.len();
    let mut k: usize = 0;
    while k < n
        invariant
            t.wf(),
            id < t.nodes@.len(),
            n == t.nodes@[id as int].children@.len(),
            k <= n,
            out@ + matches_of(t.nodes@, f, root, preorder_kids(t.nodes@, id, k as int)) == old(
                out,
            )@ + matches_of(t.nodes@, f, root, preorder_kids(t.nodes@, id, 0)),
        decreases n - k,
    {
        let c = t.nodes[id].children[k];
        proof {
            assert(id < c && c < t.nodes@.len());
        }
        let ghost before = out@;
        collect_node(t, root, f, c, out);
        proof {
            lemma_matches_distributes(
                t.nodes@,
                f,
                root,
                preorder_from(t.nodes@, c),
                preorder_kids(t.nodes@, id, k + 1),
            );
            assert(preorder_kids(t.nodes@, id, k as int) == preorder_from(t.nodes@, c)
                + preorder_kids(t.nodes@, id, k + 1));
            assert(out@ + matches_of(t.nodes@, f, root, preorder_kids(t.nodes@, id, k + 1))
                =~= before + matches_of(t.nodes@, f, root, preorder_kids(t.nodes@, id, k as int)));
        }
        k = k + 1;
    }
    proof {
        assert(preorder_kids(t.nodes@, id, n as int) =~= Seq::<usize>::empty());
        assert(matches_of(t.nodes@, f, root, Seq::<usize>::empty()) =~= Seq::<usize>::empty());
        assert(out@ =~= out@ + matches_of(t.nodes@, f, root, preorder_kids(t.nodes@, id, n as int)));
    }
}

/// A live collection: a queryable, order-preserving view over the descendants
/// of `root` that `filter` accepts. The cached member list is trusted only
/// while `cache_valid` holds and `cached_generation` equals the tree's
/// current generation; any structural mutation bumps the tree's generation
/// and thereby invalidates the cache before the next read.
pub struct HTMLCollection {
    pub root: usize,
    pub filter: Filter,
    pub cache: Vec<usize>,
    pub cache_valid: bool,
    pub cached_generation: u64,
}

impl HTMLCollection {
    /// The collection is consistent with tree `t`: its root is a node of `t`,
    /// and whenever the cache claims to be fresh for `t`'s current
    /// generation, it holds exactly the current members.
    pub open spec fn wf(self, t: Tree) -> bool {
        &&& self.root < t.nodes@.len()
        &&& self.cache_valid && self.cached_generation == t.generation ==> self.cache@
            == spec_members(t.nodes@, self.root, self.filter)
    }

    /// Binds a collection to `root` and `filter`, immutably; never fails.
    /// The cache starts stale, so the first read traverses.
    pub fn create(t: &Tree, root: usize, filter: Filter) -> (c: HTMLCollection)
        requires
            root < t.nodes@.len(),
        ensures
            c.root == root,
            c.filter == filter,
            !c.cache_valid,
            c.wf(*t),
    {
        HTMLCollection { root, filter, cache: Vec::new(), cache_valid: false, cached_generation: 0 }
    }

    /// A collection whose cache is stale is consistent with any tree that
    /// still contains its root: useful after arbitrary tree mutations.
    pub proof fn lemma_stale_wf(self, t: Tree)
        requires
            self.root < t.nodes@.len(),
            self.cache_valid ==> self.cached_generation != t.generation,
        ensures
            self.wf(t),
    {
    }

    /// Ensures the cache is fresh for `t`'s current shape: on a cache hit
    /// returns at no traversal cost, otherwise retraverses the root's subtree
    /// and rebuilds the member list.
    fn refresh(&mut self, t: &Tree)
        requires
            t.wf(),
            old(self).wf(*t),
        ensures
            final(self).root == old(self).root,
            final(self).filter == old(self).filter,
            final(self).cache_valid,
            final(self).cached_generation == t.generation,
            final(self).cache@ == spec_members(t.nodes@, old(self).root, old(self).filter),
            final(self).wf(*t),
    {
        if !(self.cache_valid && self.cached_generation == t.generation) {
            let mut out: Vec<usize> = Vec::new();
            collect_kids(t, self.root, self.filter, self.root, &mut out);
            proof {
                assert(out@ =~= spec_members(t.nodes@, self.root, self.filter));
            }
            self.cache = out;
            self.cache_valid = true;
            self.cached_generation = t.generation;
        }
    }

    /// The current members: the preorder list of the strict descendants of
    /// `root` that the filter accepts, at `t`'s current shape. Served from
    /// the cache when it is fresh, recomputed otherwise.
    pub fn members(&mut self, t: &Tree) -> (r: Vec<usize>)
        requires
            t.wf(),
            old(self).wf(*t),
        ensures
            r@ == spec_members(t.nodes@, old(self).root, old(self).filter),
            final(self).root == old(self).root,
            final(self).filter == old(self).filter,
            final(self).wf(*t),
            final(self).cache_valid,
            final(self).cached_generation == t.generation,
    {
        self.refresh(t);
        let r = self.cache.clone();
        proof {
            assert forall|i: int| 0 <= i < self.cache@.len() implies r@[i] == self.cache@[i] by {
                assert(vstd::pervasive::cloned::<usize>(self.cache@[i], r@[i]));
            }
            assert(r@ =~= self.cache@);
        }
        r
    }

    /// The number of current members; equals `members(t).len()`.
    pub fn length(&mut self, t: &Tree) -> (n: usize)
        requires
            t.wf(),
            old(self).wf(*t),
        ensures
            n == spec_members(t.nodes@, old(self).root, old(self).filter).len(),
            final(self).root == old(self).root,
            final(self).filter == old(self).filter,
            final(self).wf(*t),
    {
        self.refresh(t);
        self.cache.len()
    }

    /// Indexes into the current members: `Some` of the member at `index` in
    /// traversal order, or `None` when `index` is out of range — never a
    /// fault.
    pub fn item_at(&mut self, t: &Tree, index: usize) -> (r: Option<usize>)
        requires
            t.wf(),
            old(self).wf(*t),
        ensures
            index < spec_members(t.nodes@, old(self).root, old(self).filter).len() ==> r
                == Some(spec_members(t.nodes@, old(self).root, old(self).filter)[index as int]),
            index >= spec_members(t.nodes@, old(self).root, old(self).filter).len() ==> r is None,
            final(self).root == old(self).root,
            final(self).filter == old(self).filter,
            final(self).wf(*t),
    {
        self.refresh(t);
        if index < self.cache.len() {
            Some(self.cache[index])
        } else {
            None
        }
    }
}

/// Two reads with no intervening mutation return identical sequences: the
/// members are a pure function of the tree shape and the collection's
/// immutable root and filter, so any two results computed at the same tree
/// state agree, element for element and in order.
pub proof fn lemma_members_idempotent(
    nodes: Seq<NodeData>,
    root: usize,
    f: Filter,
    r1: Seq<usize>,
    r2: Seq<usize>,
)
    requires
        r1 == spec_members(nodes, root, f),
        r2 == spec_members(nodes, root, f),
    ensures
        r1 == r2,
{
}

/// When the member list is not empty, the entry at `length() - 1` is its
/// last element: indexed access at the top index yields the last member.
pub proof fn lemma_last_member(nodes: Seq<NodeData>, root: usize, f: Filter)
    requires
        spec_members(nodes, root, f).len() > 0,
    ensures
        spec_members(nodes, root, f)[spec_members(nodes, root, f).len() - 1] == spec_members(
            nodes,
            root,
            f,
        ).last(),
{
}

} // verus!
