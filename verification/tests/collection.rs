use dom_core::collection::{Filter, HTMLCollection};
use dom_core::tree::{ElementKind, Tree};

/// A root with matching and non-matching children, some nested: members are
/// the preorder list of descendants the filter accepts, root excluded.
#[test]
fn members_preorder_filtered() {
    let mut t = Tree::new();
    let root = t.new_node(ElementKind::DataList);
    let a = t.add_child(root, ElementKind::OptionLike);
    let wrap = t.add_child(root, ElementKind::Other);
    let b = t.add_child(wrap, ElementKind::OptionLike);
    let c = t.add_child(root, ElementKind::OptionLike);
    let mut col = HTMLCollection::create(&t, root, Filter::IsOptionLike);
    let ms = col.members(&t);
    assert_eq!(ms, vec![a, b, c]);
}

/// The root itself is never a candidate, even when it matches the filter.
#[test]
fn root_is_not_a_member() {
    let mut t = Tree::new();
    let root = t.new_node(ElementKind::OptionLike);
    let a = t.add_child(root, ElementKind::OptionLike);
    let mut col = HTMLCollection::create(&t, root, Filter::IsOptionLike);
    assert_eq!(col.members(&t), vec![a]);
}

/// An empty subtree yields an empty sequence, not an error; a filter may
/// legitimately match zero nodes.
#[test]
fn empty_and_no_match() {
    let mut t = Tree::new();
    let root = t.new_node(ElementKind::DataList);
    let mut col = HTMLCollection::create(&t, root, Filter::IsOptionLike);
    assert_eq!(col.members(&t), Vec::<usize>::new());
    assert_eq!(col.length(&t), 0);
    let other = t.add_child(root, ElementKind::Other);
    let mut col2 = HTMLCollection::create(&t, root, Filter::IsOptionLike);
    assert_eq!(col2.members(&t), Vec::<usize>::new());
    let mut col3 = HTMLCollection::create(&t, other, Filter::Any);
    assert_eq!(col3.members(&t), Vec::<usize>::new());
}

/// Two reads with no intervening mutation return identical sequences.
#[test]
fn members_idempotent() {
    let mut t = Tree::new();
    let root = t.new_node(ElementKind::DataList);
    t.add_child(root, ElementKind::OptionLike);
    t.add_child(root, ElementKind::Other);
    t.add_child(root, ElementKind::OptionLike);
    let mut col = HTMLCollection::create(&t, root, Filter::IsOptionLike);
    let first = col.members(&t);
    let second = col.members(&t);
    assert_eq!(first, second);
}

/// `item_at(length() - 1)` is the last member; `item_at(length())` and
/// beyond are a soft not-found, never a fault.
#[test]
fn item_at_bounds() {
    let mut t = Tree::new();
    let root = t.new_node(ElementKind::DataList);
    let a = t.add_child(root, ElementKind::OptionLike);
    let b = t.add_child(root, ElementKind::OptionLike);
    let mut col = HTMLCollection::create(&t, root, Filter::IsOptionLike);
    let n = col.length(&t);
    assert_eq!(n, 2);
    assert_eq!(col.item_at(&t, 0), Some(a));
    assert_eq!(col.item_at(&t, n - 1), Some(b));
    let last = col.members(&t)[n - 1];
    assert_eq!(col.item_at(&t, n - 1), Some(last));
    assert_eq!(col.item_at(&t, n), None);
    assert_eq!(col.item_at(&t, 1000), None);
}

/// A collection bound to a root with two matching children returns a
/// two-element sequence; after removing one matching child and inserting one
/// non-matching child, the next read returns a one-element sequence
/// reflecting the new shape, not the old cached one.
#[test]
fn mutation_invalidates_cache() {
    let mut t = Tree::new();
    let root = t.new_node(ElementKind::DataList);
    let a = t.add_child(root, ElementKind::OptionLike);
    let b = t.add_child(root, ElementKind::OptionLike);
    let mut col = HTMLCollection::create(&t, root, Filter::IsOptionLike);
    assert_eq!(col.members(&t), vec![a, b]);
    t.remove_child(root, 0);
    t.add_child(root, ElementKind::Other);
    assert_eq!(col.members(&t), vec![b]);
    assert_eq!(col.length(&t), 1);
    assert_eq!(col.item_at(&t, 0), Some(b));
    assert_eq!(col.item_at(&t, 1), None);
}

/// Order is traversal order, not insertion order of matches: a child
/// inserted at the front comes first on the next read.
#[test]
fn traversal_order_not_insertion_order() {
    let mut t = Tree::new();
    let root = t.new_node(ElementKind::DataList);
    let a = t.add_child(root, ElementKind::OptionLike);
    let mut col = HTMLCollection::create(&t, root, Filter::IsOptionLike);
    assert_eq!(col.members(&t), vec![a]);
    let front = t.insert_child(root, 0, ElementKind::OptionLike);
    assert_eq!(col.members(&t), vec![front, a]);
}

/// The `Any` filter accepts every descendant, in preorder.
#[test]
fn any_filter_preorder() {
    let mut t = Tree::new();
    let root = t.new_node(ElementKind::Other);
    let a = t.add_child(root, ElementKind::OptionLike);
    let a1 = t.add_child(a, ElementKind::Other);
    let b = t.add_child(root, ElementKind::DataList);
    let mut col = HTMLCollection::create(&t, root, Filter::Any);
    assert_eq!(col.members(&t), vec![a, a1, b]);
}

/// The `OfKind` filter accepts exactly the descendants of its kind.
#[test]
fn of_kind_filter() {
    let mut t = Tree::new();
    let root = t.new_node(ElementKind::Other);
    t.add_child(root, ElementKind::OptionLike);
    let d = t.add_child(root, ElementKind::DataList);
    let mut col = HTMLCollection::create(&t, root, Filter::OfKind(ElementKind::DataList));
    assert_eq!(col.members(&t), vec![d]);
}

/// A detached node is no descendant of the root: creating one does not
/// change the members, though it conservatively invalidates the cache.
#[test]
fn detached_node_not_a_member() {
    let mut t = Tree::new();
    let root = t.new_node(ElementKind::DataList);
    let a = t.add_child(root, ElementKind::OptionLike);
    let mut col = HTMLCollection::create(&t, root, Filter::IsOptionLike);
    assert_eq!(col.members(&t), vec![a]);
    t.new_node(ElementKind::OptionLike);
    assert_eq!(col.members(&t), vec![a]);
    assert_eq!(t.node_count(), 3);
}
