//! A generic binary search tree, with level-order iteration by value, by
//! shared reference and by mutable reference.
use vstd::prelude::*;
use vstd::std_specs::cmp::OrdSpec;
use vstd::multiset::Multiset;
use std::collections::VecDeque;
use core::cmp::Ordering;

verus! {

/// The comparison of `T` is a strict total order whose `Equal` is equality.
pub open spec fn total_order<T: Ord>() -> bool {
    &&& T::obeys_cmp_spec()
    &&& forall|x: T, y: T| #[trigger] x.cmp_spec(&y) == Ordering::Equal <==> x == y
    &&& forall|x: T, y: T|
        #[trigger] x.cmp_spec(&y) == Ordering::Less <==> y.cmp_spec(&x) == Ordering::Greater
    &&& forall|x: T, y: T, z: T|
        #[trigger] x.cmp_spec(&y) == Ordering::Less && #[trigger] y.cmp_spec(&z) == Ordering::Less
            ==> x.cmp_spec(&z) == Ordering::Less
}

/// `i32` is ordered as contracts here expect.
pub proof fn lemma_i32_total_order()
    ensures
        total_order::<i32>(),
{
}

struct Node<T> {
    element: T,
    left: Link<T>,
    right: Link<T>,
}

type Link<T> = Option<Box<Node<T>>>;

impl<T> Node<T> {
    /// The node holds `e` and has no children.
    pub closed spec fn is_leaf_of(&self, e: T) -> bool {
        self.element == e && self.left is None && self.right is None
    }

    pub fn new(element: T) -> (r: Node<T>)
        ensures
            r.is_leaf_of(element),
    {
        Node { element: element, left: None, right: None }
    }
}

spec fn link_set<T>(l: Link<T>) -> Set<T>
    decreases l,
{
    match l {
        None => Set::empty(),
        Some(n) => node_set(*n),
    }
}

spec fn node_set<T>(n: Node<T>) -> Set<T>
    decreases n,
{
    link_set(n.left).union(link_set(n.right)).insert(n.element)
}

spec fn link_wf<T: Ord>(l: Link<T>) -> bool
    decreases l,
{
    match l {
        None => true,
        Some(n) => node_wf(*n),
    }
}

spec fn node_wf<T: Ord>(n: Node<T>) -> bool
    decreases n,
{
    &&& forall|x: T| link_set(n.left).contains(x) ==> x.cmp_spec(&n.element) == Ordering::Less
    &&& forall|x: T| link_set(n.right).contains(x) ==> x.cmp_spec(&n.element) == Ordering::Greater
    &&& link_wf(n.left)
    &&& link_wf(n.right)
}

fn insert_link<T: Ord>(link: &mut Link<T>, e: T) -> (r: bool)
    requires
        total_order::<T>(),
        link_wf(*old(link)),
    ensures
        link_wf(*final(link)),
        link_set(*final(link)) == link_set(*old(link)).insert(e),
        r == !link_set(*old(link)).contains(e),
        link_tree(*final(link)) == tree_insert(link_tree(*old(link)), e),
    decreases *old(link),
{
    let mut cur: Link<T> = None;
    core::mem::swap(link, &mut cur);
    match cur {
        None => {
            let n = Node::new(e);
            assert(n.left is None && n.right is None && n.element == e);
            assert(node_set(n) =~= set![e]);
            *link = Some(Box::new(n));
            assert(link_set(*link) =~= link_set(*old(link)).insert(e));
            true
        },
        Some(mut node) => {
            assert(node_wf(*node));
            let ghost before = *node;
            let r = match node.element.cmp(&e) {
                Ordering::Equal => {
                    assert(node_set(*node) =~= node_set(before).insert(e));
                    false
                },
                Ordering::Greater => {
                    assert(!link_set(before.right).contains(e));
                    let r = insert_link(&mut node.left, e);
                    assert(node_set(*node) =~= node_set(before).insert(e));
                    r
                },
                Ordering::Less => {
                    assert(!link_set(before.left).contains(e));
                    let r = insert_link(&mut node.right, e);
                    assert(node_set(*node) =~= node_set(before).insert(e));
                    r
                },
            };
            *link = Some(node);
            r
        },
    }
}

fn search_link<T: Ord>(link: &Link<T>, e: &T) -> (r: bool)
    requires
        total_order::<T>(),
        link_wf(*link),
    ensures
        r == link_set(*link).contains(*e),
    decreases *link,
{
    match link {
        None => false,
        Some(node) => {
            assert(node_wf(**node));
            match node.element.cmp(e) {
                Ordering::Equal => true,
                Ordering::Greater => {
                    assert(!link_set(node.right).contains(*e));
                    search_link(&node.left, e)
                },
                Ordering::Less => {
                    assert(!link_set(node.left).contains(*e));
                    search_link(&node.right, e)
                },
            }
        },
    }
}

/// The shape of a tree: empty, or a node with its left subtree, its element
/// and its right subtree.
pub enum Tree<T> {
    Empty,
    Node(Box<Tree<T>>, T, Box<Tree<T>>),
}

/// The tree after inserting `e`: the comparisons lead from the root to an
/// empty place, which gets a new leaf; every other node keeps its place. An
/// element already present leaves the tree as it is.
pub open spec fn tree_insert<T: Ord>(t: Tree<T>, e: T) -> Tree<T>
    decreases t,
{
    match t {
        Tree::Empty => Tree::Node(Box::new(Tree::Empty), e, Box::new(Tree::Empty)),
        Tree::Node(l, x, r) => match x.cmp_spec(&e) {
            Ordering::Equal => Tree::Node(l, x, r),
            Ordering::Greater => Tree::Node(Box::new(tree_insert(*l, e)), x, r),
            Ordering::Less => Tree::Node(l, x, Box::new(tree_insert(*r, e))),
        },
    }
}

pub open spec fn tree_size<T>(t: Tree<T>) -> nat
    decreases t,
{
    match t {
        Tree::Empty => 0,
        Tree::Node(l, _, r) => 1 + tree_size(*l) + tree_size(*r),
    }
}

pub open spec fn forest_size<T>(q: Seq<Tree<T>>) -> nat
    decreases q.len(),
{
    if q.len() == 0 {
        0
    } else {
        forest_size(q.drop_last()) + tree_size(q.last())
    }
}

/// The non-empty subtrees of a tree, left first.
pub open spec fn subtrees<T>(t: Tree<T>) -> Seq<Tree<T>> {
    match t {
        Tree::Empty => Seq::empty(),
        Tree::Node(l, _, r) => (if *l is Node {
            seq![*l]
        } else {
            Seq::empty()
        }) + (if *r is Node {
            seq![*r]
        } else {
            Seq::empty()
        }),
    }
}

/// Breadth-first order of a queue of trees: take the front tree's element,
/// then queue its subtrees behind the others; `fuel` bounds the visits.
pub open spec fn forest_bfs<T>(q: Seq<Tree<T>>, fuel: nat) -> Seq<T>
    decreases fuel, q.len(),
{
    if fuel == 0 || q.len() == 0 {
        Seq::empty()
    } else {
        match q[0] {
            Tree::Empty => forest_bfs(q.skip(1), fuel),
            Tree::Node(_, x, _) => seq![x] + forest_bfs(q.skip(1) + subtrees(q[0]), (fuel - 1) as nat),
        }
    }
}

/// The elements of a tree by depth, left to right within one depth.
pub open spec fn tree_level_order<T>(t: Tree<T>) -> Seq<T> {
    forest_bfs(seq![t], tree_size(t))
}

spec fn link_tree<T>(l: Link<T>) -> Tree<T>
    decreases l,
{
    match l {
        None => Tree::Empty,
        Some(n) => node_tree(*n),
    }
}

spec fn node_tree<T>(n: Node<T>) -> Tree<T>
    decreases n,
{
    Tree::Node(Box::new(link_tree(n.left)), n.element, Box::new(link_tree(n.right)))
}

/// A set kept as a binary search tree: smaller elements to the left.
pub struct BST<T: Default + Ord> {
    root: Link<T>,
}

impl<T: Default + Ord> View for BST<T> {
    type V = Set<T>;

    closed spec fn view(&self) -> Set<T> {
        link_set(self.root)
    }
}

impl<T: Default + Ord> BST<T> {
    /// The tree is ordered.
    pub closed spec fn wf(&self) -> bool {
        link_wf(self.root)
    }

    /// The shape of the tree.
    pub closed spec fn shape(&self) -> Tree<T> {
        link_tree(self.root)
    }

    pub fn new() -> (r: BST<T>)
        ensures
            r.wf(),
            r@ == Set::<T>::empty(),
            r.shape() == Tree::<T>::Empty,
    {
        BST { root: None }
    }

    /// Adds `e`; returns whether it was not there before.
    pub fn insert(&mut self, e: T) -> (r: bool)
        requires
            total_order::<T>(),
            old(self).wf(),
        ensures
            final(self).wf(),
            final(self)@ == old(self)@.insert(e),
            final(self).shape() == tree_insert(old(self).shape(), e),
            r == !old(self)@.contains(e),
    {
        insert_link(&mut self.root, e)
    }

    /// Whether `e` is in the tree.
    pub fn find(&self, e: T) -> (r: bool)
        requires
            total_order::<T>(),
            self.wf(),
        ensures
            r == self@.contains(e),
    {
        search_link(&self.root, &e)
    }
}

spec fn link_size<T>(l: Link<T>) -> nat
    decreases l,
{
    match l {
        None => 0,
        Some(n) => node_size(*n),
    }
}

spec fn node_size<T>(n: Node<T>) -> nat
    decreases n,
{
    1 + link_size(n.left) + link_size(n.right)
}

/// The nodes of a link: none or one.
spec fn link_nodes<T>(l: Link<T>) -> Seq<Node<T>> {
    match l {
        None => Seq::empty(),
        Some(n) => seq![*n],
    }
}

/// The children of a node, left first.
spec fn kids<T>(n: Node<T>) -> Seq<Node<T>> {
    link_nodes(n.left) + link_nodes(n.right)
}

spec fn queue_size<T>(q: Seq<Node<T>>) -> nat
    decreases q.len(),
{
    if q.len() == 0 {
        0
    } else {
        queue_size(q.drop_last()) + node_size(q.last())
    }
}

/// Breadth-first order of the trees in queue `q`: visit the front node,
/// then queue its children behind the others. `fuel` bounds the visits.
spec fn bfs<T>(q: Seq<Node<T>>, fuel: nat) -> Seq<T>
    decreases fuel,
{
    if fuel == 0 || q.len() == 0 {
        Seq::empty()
    } else {
        seq![q[0].element] + bfs(q.skip(1) + kids(q[0]), (fuel - 1) as nat)
    }
}

/// Breadth-first order of a whole queue of trees.
spec fn level_order_of<T>(q: Seq<Node<T>>) -> Seq<T> {
    bfs(q, queue_size(q))
}

proof fn lemma_queue_size_concat<T>(a: Seq<Node<T>>, b: Seq<Node<T>>)
    ensures
        queue_size(a + b) == queue_size(a) + queue_size(b),
    decreases b.len(),
{
    if b.len() == 0 {
        assert(a + b =~= a);
    } else {
        assert((a + b).drop_last() =~= a + b.drop_last());
        lemma_queue_size_concat(a, b.drop_last());
    }
}

proof fn lemma_link_nodes_size<T>(l: Link<T>)
    ensures
        queue_size(link_nodes(l)) == link_size(l),
{
    assert(queue_size(Seq::<Node<T>>::empty()) == 0);
    if let Some(n) = l {
        assert(link_nodes(l).drop_last() =~= Seq::<Node<T>>::empty());
        assert(queue_size(link_nodes(l)) == queue_size(link_nodes(l).drop_last()) + node_size(*n));
    }
}

/// Visiting the front of a non-empty queue: its element comes first, and the
/// rest is the order of the queue with the front replaced by its children.
proof fn lemma_level_order_step<T>(q: Seq<Node<T>>)
    requires
        q.len() > 0,
    ensures
        level_order_of(q) == seq![q[0].element] + level_order_of(q.skip(1) + kids(q[0])),
        queue_size(q.skip(1) + kids(q[0])) < queue_size(q),
{
    let front = seq![q[0]];
    assert(front + q.skip(1) =~= q);
    lemma_queue_size_concat(front, q.skip(1));
    assert(front.drop_last() =~= Seq::<Node<T>>::empty());
    lemma_queue_size_concat(q.skip(1), kids(q[0]));
    lemma_queue_size_concat(link_nodes(q[0].left), link_nodes(q[0].right));
    lemma_link_nodes_size(q[0].left);
    lemma_link_nodes_size(q[0].right);
    assert(queue_size(front) == queue_size(front.drop_last()) + node_size(q[0]));
    assert(queue_size(Seq::<Node<T>>::empty()) == 0);
    assert(node_size(q[0]) == 1 + link_size(q[0].left) + link_size(q[0].right));
    let s = queue_size(q);
    assert(s > 0);
    assert(queue_size(q.skip(1) + kids(q[0])) == s - 1);
    assert(bfs(q, s) == seq![q[0].element] + bfs(q.skip(1) + kids(q[0]), (s - 1) as nat));
}

proof fn lemma_level_order_empty<T>(q: Seq<Node<T>>)
    requires
        q.len() == 0,
    ensures
        level_order_of(q) == Seq::<T>::empty(),
{
}

proof fn lemma_link_tree_size<T>(l: Link<T>)
    ensures
        tree_size(link_tree(l)) == link_size(l),
    decreases l,
{
    if let Some(n) = l {
        lemma_link_tree_size(n.left);
        lemma_link_tree_size(n.right);
    }
}

/// The node-queue order is the tree-queue order of the nodes' shapes.
proof fn lemma_bfs_trees<T>(q: Seq<Node<T>>, fuel: nat)
    ensures
        bfs(q, fuel) == forest_bfs(q.map_values(|n: Node<T>| node_tree(n)), fuel),
    decreases fuel,
{
    let qt = q.map_values(|n: Node<T>| node_tree(n));
    if fuel > 0 && q.len() > 0 {
        let q0 = q[0];
        let q2 = q.skip(1) + kids(q0);
        lemma_bfs_trees(q2, (fuel - 1) as nat);
        assert(qt[0] == node_tree(q0));
        assert(q2.map_values(|n: Node<T>| node_tree(n)) =~= qt.skip(1) + subtrees(qt[0])) by {
            assert(link_nodes(q0.left).map_values(|n: Node<T>| node_tree(n)) =~= (if link_tree(
                q0.left,
            ) is Node {
                seq![link_tree(q0.left)]
            } else {
                Seq::empty()
            }));
            assert(link_nodes(q0.right).map_values(|n: Node<T>| node_tree(n)) =~= (if link_tree(
                q0.right,
            ) is Node {
                seq![link_tree(q0.right)]
            } else {
                Seq::empty()
            }));
        }
    }
}

impl<T: Default + Ord> BST<T> {
    /// The elements in level order: by depth, and left to right within one
    /// depth.
    pub open spec fn level_order(&self) -> Seq<T> {
        tree_level_order(self.shape())
    }

    proof fn lemma_level_order_nodes(&self)
        ensures
            self.level_order() == level_order_of(link_nodes(self.root)),
    {
        lemma_bfs_trees(link_nodes(self.root), queue_size(link_nodes(self.root)));
        lemma_link_nodes_size(self.root);
        lemma_link_tree_size(self.root);
        let q = link_nodes(self.root);
        let qt = q.map_values(|n: Node<T>| node_tree(n));
        if self.root is None {
            assert(forest_bfs(seq![self.shape()], tree_size(self.shape())) =~= Seq::<T>::empty());
            assert(level_order_of(q) =~= Seq::<T>::empty());
        } else {
            assert(qt =~= seq![self.shape()]);
        }
    }

    /// The level order lists every element of the tree, each exactly once.
    pub proof fn lemma_level_order_lists_elements(&self)
        requires
            total_order::<T>(),
            self.wf(),
        ensures
            self.level_order().no_duplicates(),
            self.level_order().to_set() == self@,
    {
        let q = link_nodes(self.root);
        self.lemma_level_order_nodes();
        let lo = self.level_order();
        lemma_level_order_ms(q);
        lemma_link_nodes_ms(self.root);
        lemma_link_ms_counts(self.root);
        lo.to_multiset_ensures();
        assert forall|x: T| lo.to_multiset().contains(x) implies lo.to_multiset().count(x) == 1 by {
            assert(link_ms(self.root).count(x) > 0);
        }
        lo.lemma_multiset_has_no_duplicates_conv();
        assert forall|x: T| lo.to_set().contains(x) <==> self@.contains(x) by {
            assert(lo.contains(x) <==> lo.to_multiset().count(x) > 0);
        }
        assert(lo.to_set() =~= self@);
    }
}

spec fn link_ms<T>(l: Link<T>) -> Multiset<T>
    decreases l,
{
    match l {
        None => Multiset::empty(),
        Some(n) => node_ms(*n),
    }
}

spec fn node_ms<T>(n: Node<T>) -> Multiset<T>
    decreases n,
{
    link_ms(n.left).add(link_ms(n.right)).insert(n.element)
}

spec fn queue_ms<T>(q: Seq<Node<T>>) -> Multiset<T>
    decreases q.len(),
{
    if q.len() == 0 {
        Multiset::empty()
    } else {
        queue_ms(q.drop_last()).add(node_ms(q.last()))
    }
}

proof fn lemma_queue_ms_concat<T>(a: Seq<Node<T>>, b: Seq<Node<T>>)
    ensures
        queue_ms(a + b) == queue_ms(a).add(queue_ms(b)),
    decreases b.len(),
{
    broadcast use vstd::multiset::group_multiset_axioms;
    if b.len() == 0 {
        assert(a + b =~= a);
        assert(queue_ms(a).add(queue_ms(b)) =~= queue_ms(a));
    } else {
        assert((a + b).drop_last() =~= a + b.drop_last());
        lemma_queue_ms_concat(a, b.drop_last());
        assert(queue_ms(a + b) =~= queue_ms(a).add(queue_ms(b)));
    }
}

proof fn lemma_link_nodes_ms<T>(l: Link<T>)
    ensures
        queue_ms(link_nodes(l)) == link_ms(l),
{
    broadcast use vstd::multiset::group_multiset_axioms;
    assert(queue_ms(Seq::<Node<T>>::empty()) == Multiset::<T>::empty());
    if let Some(n) = l {
        assert(link_nodes(l).drop_last() =~= Seq::<Node<T>>::empty());
        assert(queue_ms(link_nodes(l)) =~= link_ms(l));
    }
}

proof fn lemma_level_order_ms<T>(q: Seq<Node<T>>)
    ensures
        level_order_of(q).to_multiset() == queue_ms(q),
    decreases queue_size(q),
{
    broadcast use vstd::multiset::group_multiset_axioms;
    if q.len() == 0 {
        lemma_level_order_empty(q);
        level_order_of(q).to_multiset_ensures();
        assert(level_order_of(q).to_multiset().len() == 0);
        assert(level_order_of(q).to_multiset() =~= queue_ms(q));
    } else {
        lemma_level_order_step(q);
        let q0 = q[0];
        let q2 = q.skip(1) + kids(q0);
        lemma_level_order_ms(q2);
        vstd::seq_lib::lemma_multiset_commutative(seq![q0.element], level_order_of(q2));
        assert(seq![q0.element].to_multiset() =~= Multiset::<T>::empty().insert(q0.element)) by {
            Seq::<T>::empty().to_multiset_ensures();
            assert(Seq::<T>::empty().push(q0.element) =~= seq![q0.element]);
        }
        lemma_queue_ms_concat(q.skip(1), kids(q0));
        lemma_queue_ms_concat(link_nodes(q0.left), link_nodes(q0.right));
        lemma_link_nodes_ms(q0.left);
        lemma_link_nodes_ms(q0.right);
        let front = seq![q0];
        assert(front + q.skip(1) =~= q);
        lemma_queue_ms_concat(front, q.skip(1));
        assert(front.drop_last() =~= Seq::<Node<T>>::empty());
        assert(queue_ms(front.drop_last()) =~= Multiset::<T>::empty());
        assert(queue_ms(front) =~= node_ms(q0));
        assert(level_order_of(q).to_multiset() =~= queue_ms(q));
    }
}

proof fn lemma_link_ms_counts<T: Ord>(l: Link<T>)
    requires
        total_order::<T>(),
        link_wf(l),
    ensures
        forall|x: T| #[trigger]
            link_ms(l).count(x) == (if link_set(l).contains(x) {
                1nat
            } else {
                0nat
            }),
    decreases l,
{
    broadcast use vstd::multiset::group_multiset_axioms;
    if let Some(n) = l {
        let nd = *n;
        assert(node_wf(nd));
        lemma_link_ms_counts(nd.left);
        lemma_link_ms_counts(nd.right);
        assert forall|x: T| #[trigger]
            link_ms(l).count(x) == (if link_set(l).contains(x) {
                1nat
            } else {
                0nat
            }) by {
            assert(link_ms(l) == node_ms(nd));
            assert(link_set(l) == node_set(nd));
            assert(nd.element.cmp_spec(&nd.element) == Ordering::Equal);
            let cl = link_ms(nd.left).count(x);
            let cr = link_ms(nd.right).count(x);
            assert(link_ms(nd.left).add(link_ms(nd.right)).count(x) == cl + cr);
            assert(node_ms(nd).count(x) == cl + cr + (if x == nd.element {
                1nat
            } else {
                0nat
            }));
            assert(node_set(nd).contains(x) == (link_set(nd.left).contains(x) || link_set(
                nd.right,
            ).contains(x) || x == nd.element));
            if x == nd.element {
                assert(!link_set(nd.left).contains(x));
                assert(!link_set(nd.right).contains(x));
            }
            if link_set(nd.left).contains(x) {
                assert(x.cmp_spec(&nd.element) == Ordering::Less);
                assert(x != nd.element);
                assert(!link_set(nd.right).contains(x));
            }
            if link_set(nd.right).contains(x) {
                assert(x.cmp_spec(&nd.element) == Ordering::Greater);
                assert(x != nd.element);
            }
        }
    }
}

/// Level-order iteration that takes the tree apart.
pub struct IntoIter<T: Copy> {
    next: VecDeque<Box<Node<T>>>,
}

impl<T: Copy> IntoIter<T> {
    /// The elements still to come, in order.
    pub closed spec fn remaining(&self) -> Seq<T> {
        level_order_of(self.next@.map_values(|b: Box<Node<T>>| *b))
    }

    /// The next element in level order, if any.
    pub fn next(&mut self) -> (r: Option<T>)
        ensures
            old(self).remaining().len() == 0 ==> r is None && final(self).remaining() == old(
                self,
            ).remaining(),
            old(self).remaining().len() > 0 ==> r == Some(old(self).remaining()[0])
                && final(self).remaining() == old(self).remaining().skip(1),
    {
        let ghost q = self.next@.map_values(|b: Box<Node<T>>| *b);
        match self.next.pop_front() {
            None => {
                proof {
                    lemma_level_order_empty(q);
                }
                None
            },
            Some(node) => {
                proof {
                    lemma_level_order_step(q);
                }
                let ghost front = *node;
                let n = *node;
                let Node { element, left, right } = n;
                if let Some(l) = left {
                    self.next.push_back(l);
                }
                if let Some(r) = right {
                    self.next.push_back(r);
                }
                proof {
                    assert(self.next@.map_values(|b: Box<Node<T>>| *b) =~= q.skip(1) + kids(front));
                    assert(old(self).remaining() =~= seq![element] + self.remaining());
                }
                Some(element)
            },
        }
    }
}

impl<T: Default + Copy + Ord> BST<T> {
    /// Iterates over the elements in level order, consuming the tree.
    pub fn into_iter(self) -> (r: IntoIter<T>)
        ensures
            r.remaining() == self.level_order(),
    {
        proof {
            self.lemma_level_order_nodes();
        }
        let mut next: VecDeque<Box<Node<T>>> = VecDeque::new();
        let ghost root = self.root;
        if let Some(root) = self.root {
            next.push_back(root);
        }
        let r = IntoIter { next };
        assert(r.next@.map_values(|b: Box<Node<T>>| *b) =~= link_nodes(root));
        r
    }
}

/// Level-order iteration by shared reference.
pub struct Iter<'a, T: 'a> {
    next: VecDeque<&'a Node<T>>,
}

impl<'a, T> Iter<'a, T> {
    /// The elements still to come, in order.
    pub closed spec fn remaining(&self) -> Seq<T> {
        level_order_of(self.next@.map_values(|r: &Node<T>| *r))
    }

    /// A reference to the next element in level order, if any.
    pub fn next(&mut self) -> (r: Option<&'a T>)
        ensures
            old(self).remaining().len() == 0 ==> r is None && final(self).remaining() == old(
                self,
            ).remaining(),
            old(self).remaining().len() > 0 ==> r is Some && *r->0 == old(self).remaining()[0]
                && final(self).remaining() == old(self).remaining().skip(1),
    {
        let ghost q = self.next@.map_values(|r: &Node<T>| *r);
        match self.next.pop_front() {
            None => {
                proof {
                    lemma_level_order_empty(q);
                }
                None
            },
            Some(node) => {
                proof {
                    lemma_level_order_step(q);
                }
                if let Some(l) = &node.left {
                    self.next.push_back(&**l);
                }
                if let Some(r) = &node.right {
                    self.next.push_back(&**r);
                }
                proof {
                    assert(self.next@.map_values(|r: &Node<T>| *r) =~= q.skip(1) + kids(*node));
                    assert(old(self).remaining() =~= seq![node.element] + self.remaining());
                }
                Some(&node.element)
            },
        }
    }
}

impl<T: Default + Copy + Ord> BST<T> {
    /// Iterates over references to the elements in level order.
    pub fn iter<'a>(&'a self) -> (r: Iter<'a, T>)
        ensures
            r.remaining() == self.level_order(),
    {
        proof {
            self.lemma_level_order_nodes();
        }
        let mut next: VecDeque<&'a Node<T>> = VecDeque::new();
        if let Some(root) = &self.root {
            next.push_back(&**root);
        }
        let r = Iter { next };
        assert(r.next@.map_values(|r: &Node<T>| *r) =~= link_nodes(self.root));
        r
    }
}

/// Level-order iteration by mutable reference.
pub struct IterMut<'a, T: 'a> {
    next: VecDeque<&'a mut Node<T>>,
}

impl<'a, T> IterMut<'a, T> {
    /// The elements still to come, in order.
    pub closed spec fn remaining(&self) -> Seq<T> {
        level_order_of(self.next@.map_values(|r: &mut Node<T>| *r))
    }

    /// A mutable reference to the next element in level order, if any.
    pub fn next(&mut self) -> (r: Option<&'a mut T>)
        ensures
            old(self).remaining().len() == 0 ==> r is None,
            old(self).remaining().len() > 0 ==> r is Some && *r->0 == old(self).remaining()[0]
                && final(self).remaining() == old(self).remaining().skip(1),
    {
        let ghost q = self.next@.map_values(|r: &mut Node<T>| *r);
        match self.next.pop_front() {
            None => {
                proof {
                    lemma_level_order_empty(q);
                }
                None
            },
            Some(node) => {
                proof {
                    lemma_level_order_step(q);
                }
                let ghost front = *node;
                let Node { element, left, right } = node;
                if let Some(l) = left {
                    let lr = &mut **l;
                    assert(*lr == *front.left.unwrap());
                    self.next.push_back(lr);
                }
                assert(self.next@.map_values(|r: &mut Node<T>| *r) =~= q.skip(1) + link_nodes(front.left));
                if let Some(r) = right {
                    let rr = &mut **r;
                    assert(*rr == *front.right.unwrap());
                    self.next.push_back(rr);
                }
                proof {
                    assert(self.next@.map_values(|r: &mut Node<T>| *r) =~= q.skip(1) + kids(front));
                    assert(old(self).remaining() =~= seq![front.element] + self.remaining());
                }
                Some(element)
            },
        }
    }
}

impl<T: Default + Copy + Ord> BST<T> {
    /// Iterates over mutable references to the elements in level order.
    pub fn iter_mut<'a>(&'a mut self) -> (r: IterMut<'a, T>)
        ensures
            r.remaining() == old(self).level_order(),
    {
        proof {
            old(self).lemma_level_order_nodes();
        }
        let mut next: VecDeque<&'a mut Node<T>> = VecDeque::new();
        let ghost root = self.root;
        if let Some(root) = &mut self.root {
            let rr = &mut **root;
            assert(*rr == *old(self).root.unwrap());
            next.push_back(rr);
        }
        let r = IterMut { next };
        assert(r.next@.map_values(|r: &mut Node<T>| *r) =~= link_nodes(root));
        r
    }
}

} // verus!
