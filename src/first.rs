//! A binary search tree of `i32` that always has a root node.
//!
//! The root starts out holding `0`, so a new tree already contains `0`.
//! Smaller elements go to the right of a node and larger ones to the left.
use vstd::prelude::*;

verus! {

struct Node {
    element: i32,
    left: Link,
    right: Link,
}

enum Link {
    Empty,
    More(Box<Node>),
}

spec fn link_set(l: Link) -> Set<i32>
    decreases l,
{
    match l {
        Link::Empty => Set::empty(),
        Link::More(n) => node_set(*n),
    }
}

spec fn node_set(n: Node) -> Set<i32>
    decreases n,
{
    link_set(n.left).union(link_set(n.right)).insert(n.element)
}

spec fn link_wf(l: Link) -> bool
    decreases l,
{
    match l {
        Link::Empty => true,
        Link::More(n) => node_wf(*n),
    }
}

spec fn node_wf(n: Node) -> bool
    decreases n,
{
    &&& forall|x: i32| link_set(n.left).contains(x) ==> x > n.element
    &&& forall|x: i32| link_set(n.right).contains(x) ==> x < n.element
    &&& link_wf(n.left)
    &&& link_wf(n.right)
}

/// The tree after inserting `e`: the path of comparisons from the root is
/// followed to an empty link, which gets a new leaf; every other node stays
/// where it was. An element already present leaves the tree unchanged.
spec fn node_inserted(n: Node, e: i32) -> Node
    decreases n,
{
    if n.element == e {
        n
    } else if n.element > e {
        Node { element: n.element, left: n.left, right: link_inserted(n.right, e) }
    } else {
        Node { element: n.element, left: link_inserted(n.left, e), right: n.right }
    }
}

spec fn link_inserted(l: Link, e: i32) -> Link
    decreases l,
{
    match l {
        Link::Empty => Link::More(Box::new(Node { element: e, left: Link::Empty, right: Link::Empty })),
        Link::More(n) => Link::More(Box::new(node_inserted(*n, e))),
    }
}

/// A set of `i32` kept as a binary search tree.
pub struct BST {
    root: Node,
}

impl View for BST {
    type V = Set<i32>;

    closed spec fn view(&self) -> Set<i32> {
        node_set(self.root)
    }
}

impl BST {
    /// The tree is ordered.
    pub closed spec fn wf(&self) -> bool {
        node_wf(self.root)
    }

    /// A tree whose root holds `0`.
    pub fn new() -> (r: BST)
        ensures
            r.wf(),
            r@ == set![0i32],
    {
        let r = BST { root: Node { element: 0, left: Link::Empty, right: Link::Empty } };
        assert(r@ =~= set![0i32]);
        r
    }

    fn _create_node(element: i32) -> (r: Node)
        ensures
            r == (Node { element: element, left: Link::Empty, right: Link::Empty }),
            node_wf(r),
            node_set(r) == set![element],
    {
        let r = Node { element: element, left: Link::Empty, right: Link::Empty };
        assert(node_set(r) =~= set![element]);
        r
    }

    fn _insert(node: &mut Node, element: i32) -> (r: bool)
        requires
            node_wf(*old(node)),
        ensures
            node_wf(*final(node)),
            node_set(*final(node)) == node_set(*old(node)).insert(element),
            r == !node_set(*old(node)).contains(element),
            *final(node) == node_inserted(*old(node), element),
        decreases *old(node),
    {
        if node.element == element {
            return false;
        }
        if node.element > element {
            let mut right = Link::Empty;
            core::mem::swap(&mut node.right, &mut right);
            match right {
                Link::Empty => {
                    assert(link_set(old(node).right) == Set::<i32>::empty());
                    node.right = Link::More(Box::new(BST::_create_node(element)));
                    assert(!link_set(node.left).contains(element));
                    assert(node_set(*node) =~= node_set(*old(node)).insert(element));
                    true
                },
                Link::More(mut child) => {
                    assert(link_set(old(node).right) == node_set(*child));
                    assert(node_wf(*child));
                    let r = BST::_insert(&mut child, element);
                    node.right = Link::More(child);
                    assert(link_set(node.right) == node_set(*child));
                    assert(link_wf(node.right));
                    assert(!link_set(node.left).contains(element));
                    assert(node_set(*node) =~= node_set(*old(node)).insert(element));
                    r
                },
            }
        } else {
            let mut left = Link::Empty;
            core::mem::swap(&mut node.left, &mut left);
            match left {
                Link::Empty => {
                    assert(link_set(old(node).left) == Set::<i32>::empty());
                    node.left = Link::More(Box::new(BST::_create_node(element)));
                    assert(!link_set(node.right).contains(element));
                    assert(node_set(*node) =~= node_set(*old(node)).insert(element));
                    true
                },
                Link::More(mut child) => {
                    assert(link_set(old(node).left) == node_set(*child));
                    assert(node_wf(*child));
                    let r = BST::_insert(&mut child, element);
                    node.left = Link::More(child);
                    assert(link_set(node.left) == node_set(*child));
                    assert(link_wf(node.left));
                    assert(!link_set(node.right).contains(element));
                    assert(node_set(*node) =~= node_set(*old(node)).insert(element));
                    r
                },
            }
        }
    }

    fn _find(node: &Node, element: i32) -> (r: bool)
        requires
            node_wf(*node),
        ensures
            r == node_set(*node).contains(element),
        decreases *node,
    {
        if node.element == element {
            return true;
        }
        assert(node.element > element ==> !link_set(node.left).contains(element));
        assert(node.element < element ==> !link_set(node.right).contains(element));
        if node.element > element {
            match &node.right {
                Link::Empty => false,
                Link::More(child) => BST::_find(child, element),
            }
        } else {
            match &node.left {
                Link::Empty => false,
                Link::More(child) => BST::_find(child, element),
            }
        }
    }

    /// Adds `element`; returns whether it was not there before.
    pub fn insert(&mut self, element: i32) -> (r: bool)
        requires
            old(self).wf(),
        ensures
            final(self).wf(),
            final(self)@ == old(self)@.insert(element),
            r == !old(self)@.contains(element),
    {
        BST::_insert(&mut self.root, element)
    }

    /// Whether `element` is in the tree. The tree is left as it is.
    pub fn find(&mut self, element: i32) -> (r: bool)
        requires
            old(self).wf(),
        ensures
            *final(self) == *old(self),
            r == old(self)@.contains(element),
    {
        BST::_find(&self.root, element)
    }
}

} // verus!
