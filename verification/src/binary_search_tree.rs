//! An unbalanced binary search tree keyed by a signed integer, holding a
//! payload at every node.  Smaller keys sit in the left subtree, larger
//! keys in the right one; duplicate keys are rejected.

use vstd::prelude::*;

verus! {

/// Failure reported by the tree operations: an empty tree, a key that is
/// absent, or one that is already present.
#[derive(Debug)]
pub struct Error {
    details: String,
}

impl Error {
    /// The stored description of what went wrong.
    pub closed spec fn text(&self) -> Seq<char> {
        self.details@
    }

    /// Wraps a description of what went wrong.
    pub fn new(msg: &str) -> (e: Error)
        ensures
            e.text() == msg@,
    {
        Error { details: msg.to_owned() }
    }
}

/// One node of the tree: a key, its payload, and the two subtrees.
#[derive(Debug)]
pub struct BinarySearchTreeNode<T> {
    pub key: isize,
    pub data: Option<T>,
    pub left_child: Option<Box<BinarySearchTreeNode<T>>>,
    pub right_child: Option<Box<BinarySearchTreeNode<T>>>,
}

/// An unbalanced binary search tree, possibly empty.
#[derive(Debug)]
pub struct BinarySearchTree<T> {
    pub root: Option<Box<BinarySearchTreeNode<T>>>,
}

/// The key-to-payload map that an optional subtree stores.
pub open spec fn opt_as_map<T>(node_opt: Option<Box<BinarySearchTreeNode<T>>>) -> Map<int, T>
    decreases node_opt,
{
    match node_opt {
        None => Map::empty(),
        Some(node) => node.as_map(),
    }
}

/// Well-formedness of an optional subtree.
pub open spec fn opt_wf<T>(node_opt: Option<Box<BinarySearchTreeNode<T>>>) -> bool
    decreases node_opt,
{
    match node_opt {
        None => true,
        Some(node) => node.wf(),
    }
}

impl<T> BinarySearchTreeNode<T> {
    /// The key-to-payload map that this subtree stores.
    pub open spec fn as_map(self) -> Map<int, T>
        decreases self,
    {
        opt_as_map(self.left_child).union_prefer_right(opt_as_map(self.right_child)).insert(
            self.key as int,
            self.data.unwrap(),
        )
    }

    /// Well-formedness: the payload is present, every left key is smaller
    /// than this node's key, every right key larger, recursively.
    pub open spec fn wf(self) -> bool
        decreases self,
    {
        &&& self.data is Some
        &&& (forall|k: int| opt_as_map(self.left_child).dom().contains(k) ==> k < self.key as int)
        &&& (forall|k: int| opt_as_map(self.right_child).dom().contains(k) ==> k > self.key as int)
        &&& opt_wf(self.left_child)
        &&& opt_wf(self.right_child)
    }
}

impl<T> View for BinarySearchTree<T> {
    type V = Map<int, T>;

    open spec fn view(&self) -> Map<int, T> {
        opt_as_map(self.root)
    }
}

impl<T> BinarySearchTree<T> {
    /// Well-formedness of the whole tree; every operation requires and
    /// preserves it.
    pub open spec fn wf(&self) -> bool {
        opt_wf(self.root)
    }
}

/// The number of edges walked by the comparison descent from the root of
/// the optional subtree to the node holding `key`; nothing when the
/// descent misses.
pub open spec fn spec_depth<T>(
    node_opt: Option<Box<BinarySearchTreeNode<T>>>,
    key: isize,
) -> Option<int>
    decreases node_opt,
{
    match node_opt {
        None => None,
        Some(node) => if node.key == key {
            Some(0)
        } else if key < node.key {
            match spec_depth(node.left_child, key) {
                None => None,
                Some(d) => Some(d + 1),
            }
        } else {
            match spec_depth(node.right_child, key) {
                None => None,
                Some(d) => Some(d + 1),
            }
        },
    }
}

/// On a well-formed tree the comparison descent finds exactly the stored
/// keys: the walk reports a depth for `key` precisely when the tree maps
/// it.
pub proof fn lemma_depth_finds_stored_keys<T>(
    node_opt: Option<Box<BinarySearchTreeNode<T>>>,
    key: isize,
)
    requires
        opt_wf(node_opt),
    ensures
        spec_depth(node_opt, key) is Some <==> opt_as_map(node_opt).dom().contains(key as int),
    decreases node_opt,
{
    if let Some(node) = node_opt {
        if key < node.key {
            lemma_depth_finds_stored_keys(node.left_child, key);
            assert(!opt_as_map(node.right_child).dom().contains(key as int));
        } else if key > node.key {
            lemma_depth_finds_stored_keys(node.right_child, key);
            assert(!opt_as_map(node.left_child).dom().contains(key as int));
        }
    }
}

/// The height of a node in edges: 0 for a node without children, and one
/// more than the taller child otherwise.
pub open spec fn spec_height<T>(node: BinarySearchTreeNode<T>) -> int
    decreases node,
{
    let left_height: int = match node.left_child {
        None => 0,
        Some(l) => spec_height(*l) + 1,
    };
    let right_height: int = match node.right_child {
        None => 0,
        Some(r) => spec_height(*r) + 1,
    };
    if right_height > left_height {
        right_height
    } else {
        left_height
    }
}

/// A node's height is never negative.
pub proof fn lemma_height_nonneg<T>(node: BinarySearchTreeNode<T>)
    ensures
        spec_height(node) >= 0,
    decreases node,
{
    if let Some(l) = node.left_child {
        lemma_height_nonneg(*l);
    }
    if let Some(r) = node.right_child {
        lemma_height_nonneg(*r);
    }
}

/// Two optional subtrees have the same shape and carry the same keys at
/// the same positions.
pub open spec fn same_layout<T>(
    a: Option<Box<BinarySearchTreeNode<T>>>,
    b: Option<Box<BinarySearchTreeNode<T>>>,
) -> bool
    decreases a,
{
    match (a, b) {
        (None, None) => true,
        (Some(x), Some(y)) => x.key == y.key && same_layout(x.left_child, y.left_child)
            && same_layout(x.right_child, y.right_child),
        _ => false,
    }
}

/// Exec mirror of [`same_layout`].
fn layout_equal<T>(
    a: &Option<Box<BinarySearchTreeNode<T>>>,
    b: &Option<Box<BinarySearchTreeNode<T>>>,
) -> (r: bool)
    ensures
        r == same_layout(*a, *b),
    decreases *a,
{
    match (a, b) {
        (None, None) => true,
        (Some(x), Some(y)) => x.key == y.key && layout_equal(&x.left_child, &y.left_child)
            && layout_equal(&x.right_child, &y.right_child),
        _ => false,
    }
}

impl<T> PartialEq for BinarySearchTree<T> {
    /// Trees are compared by shape and keys alone; payloads carry no
    /// identity of their own.
    fn eq(&self, other: &Self) -> (r: bool) {
        layout_equal(&self.root, &other.root)
    }
}

impl<T> vstd::std_specs::cmp::PartialEqSpecImpl for BinarySearchTree<T> {
    open spec fn obeys_eq_spec() -> bool {
        true
    }

    open spec fn eq_spec(&self, other: &Self) -> bool {
        same_layout(self.root, other.root)
    }
}

/// Inserts into an optional subtree; rejects a key that is already there.
fn insert_opt<T: Copy>(node: &mut Option<Box<BinarySearchTreeNode<T>>>, key: isize, data: T) -> (r:
    Result<(), Error>)
    requires
        opt_wf(*old(node)),
    ensures
        opt_wf(*final(node)),
        opt_as_map(*old(node)).dom().contains(key as int) ==> r is Err && opt_as_map(*final(node))
            == opt_as_map(*old(node)),
        !opt_as_map(*old(node)).dom().contains(key as int) ==> r is Ok && opt_as_map(*final(node))
            == opt_as_map(*old(node)).insert(key as int, data),
    decreases *old(node),
{
    match node.take() {
        None => {
            *node = Some(
                Box::new(
                    BinarySearchTreeNode {
                        key,
                        data: Some(data),
                        left_child: None,
                        right_child: None,
                    },
                ),
            );
            proof {
                assert(opt_as_map(*node) =~= opt_as_map(None::<Box<BinarySearchTreeNode<T>>>)
                    .insert(key as int, data));
            }
            Ok(())
        },
        Some(mut boxed_node) => {
            let r: Result<(), Error>;
            if key == boxed_node.key {
                r = Err(Error::new("key already exists"));
            } else if key < boxed_node.key {
                proof {
                    assert(!opt_as_map(boxed_node.right_child).dom().contains(key as int));
                }
                r = insert_opt(&mut boxed_node.left_child, key, data);
            } else {
                proof {
                    assert(!opt_as_map(boxed_node.left_child).dom().contains(key as int));
                }
                r = insert_opt(&mut boxed_node.right_child, key, data);
            }
            let ghost m = boxed_node.as_map();
            *node = Some(boxed_node);
            proof {
                assert(opt_as_map(*node) == m);
                if !opt_as_map(*old(node)).dom().contains(key as int) {
                    assert(opt_as_map(*node) =~= opt_as_map(*old(node)).insert(key as int, data));
                }
            }
            r
        },
    }
}

/// Looks a key up in an optional subtree.
fn search_opt<T: Copy>(node: &Option<Box<BinarySearchTreeNode<T>>>, key: isize) -> (r: Option<T>)
    requires
        opt_wf(*node),
    ensures
        r == (if opt_as_map(*node).dom().contains(key as int) {
            Some(opt_as_map(*node)[key as int])
        } else {
            None::<T>
        }),
    decreases *node,
{
    match node {
        None => None,
        Some(boxed_node) => {
            if key == boxed_node.key {
                Some(boxed_node.data.unwrap())
            } else if key < boxed_node.key {
                proof {
                    assert(!opt_as_map(boxed_node.right_child).dom().contains(key as int));
                }
                search_opt(&boxed_node.left_child, key)
            } else {
                proof {
                    assert(!opt_as_map(boxed_node.left_child).dom().contains(key as int));
                }
                search_opt(&boxed_node.right_child, key)
            }
        },
    }
}

/// Removes the node with the smallest key from a non-empty optional
/// subtree and returns its key and payload.
fn remove_leftmost<T: Copy>(node: &mut Option<Box<BinarySearchTreeNode<T>>>) -> (popped: (
    isize,
    T,
))
    requires
        *old(node) is Some,
        opt_wf(*old(node)),
    ensures
        opt_wf(*final(node)),
        opt_as_map(*final(node)) == opt_as_map(*old(node)).remove(popped.0 as int),
        opt_as_map(*old(node)).dom().contains(popped.0 as int),
        opt_as_map(*old(node))[popped.0 as int] == popped.1,
        forall|k: int| opt_as_map(*old(node)).dom().contains(k) ==> popped.0 as int <= k,
    decreases *old(node),
{
    let mut boxed_node = node.take().unwrap();
    if boxed_node.left_child.is_none() {
        let k = boxed_node.key;
        let data = boxed_node.data.unwrap();
        proof {
            assert(opt_as_map(boxed_node.left_child) =~= Map::<int, T>::empty());
            assert(!opt_as_map(boxed_node.right_child).dom().contains(k as int));
        }
        *node = boxed_node.right_child;
        proof {
            assert(opt_as_map(*node) =~= boxed_node.as_map().remove(k as int));
        }
        (k, data)
    } else {
        let popped = remove_leftmost(&mut boxed_node.left_child);
        proof {
            assert(!opt_as_map(boxed_node.right_child).dom().contains(popped.0 as int));
            assert((popped.0 as int) < (boxed_node.key as int));
        }
        let ghost m = boxed_node.as_map();
        *node = Some(boxed_node);
        proof {
            assert(opt_as_map(*node) == m);
            assert(opt_as_map(*node) =~= opt_as_map(*old(node)).remove(popped.0 as int));
        }
        popped
    }
}

/// Removes a key from an optional subtree, returning its payload; a node
/// with two children is replaced by its in-order successor, the leftmost
/// node of its right subtree.
fn remove_opt<T: Copy>(node: &mut Option<Box<BinarySearchTreeNode<T>>>, key: isize) -> (r: Result<
    T,
    Error,
>)
    requires
        opt_wf(*old(node)),
    ensures
        opt_wf(*final(node)),
        opt_as_map(*old(node)).dom().contains(key as int) ==> r == Ok::<T, Error>(
            opt_as_map(*old(node))[key as int],
        ) && opt_as_map(*final(node)) == opt_as_map(*old(node)).remove(key as int),
        !opt_as_map(*old(node)).dom().contains(key as int) ==> r is Err && opt_as_map(
            *final(node),
        ) == opt_as_map(*old(node)),
    decreases *old(node),
{
    match node.take() {
        None => Err(Error::new("key not found")),
        Some(mut boxed_node) => {
            if key == boxed_node.key {
                proof {
                    assert(!opt_as_map(boxed_node.left_child).dom().contains(key as int));
                    assert(!opt_as_map(boxed_node.right_child).dom().contains(key as int));
                }
                let data = boxed_node.data.unwrap();
                if boxed_node.left_child.is_some() && boxed_node.right_child.is_some() {
                    let popped = remove_leftmost(&mut boxed_node.right_child);
                    boxed_node.key = popped.0;
                    boxed_node.data = Some(popped.1);
                    let ghost m = boxed_node.as_map();
                    *node = Some(boxed_node);
                    proof {
                        assert(opt_as_map(*node) == m);
                        assert(opt_as_map(*node) =~= opt_as_map(*old(node)).remove(key as int));
                    }
                } else if boxed_node.left_child.is_some() {
                    proof {
                        assert(opt_as_map(boxed_node.right_child) =~= Map::<int, T>::empty());
                    }
                    *node = boxed_node.left_child;
                    proof {
                        assert(opt_as_map(*node) =~= opt_as_map(*old(node)).remove(key as int));
                    }
                } else {
                    proof {
                        assert(opt_as_map(boxed_node.left_child) =~= Map::<int, T>::empty());
                    }
                    *node = boxed_node.right_child;
                    proof {
                        assert(opt_as_map(*node) =~= opt_as_map(*old(node)).remove(key as int));
                    }
                }
                Ok(data)
            } else if key < boxed_node.key {
                proof {
                    assert(!opt_as_map(boxed_node.right_child).dom().contains(key as int));
                }
                let r = remove_opt(&mut boxed_node.left_child, key);
                let ghost m = boxed_node.as_map();
                *node = Some(boxed_node);
                proof {
                    assert(opt_as_map(*node) == m);
                    if opt_as_map(*old(node)).dom().contains(key as int) {
                        assert(opt_as_map(*node) =~= opt_as_map(*old(node)).remove(key as int));
                    } else {
                        assert(opt_as_map(*node) =~= opt_as_map(*old(node)));
                    }
                }
                r
            } else {
                proof {
                    assert(!opt_as_map(boxed_node.left_child).dom().contains(key as int));
                }
                let r = remove_opt(&mut boxed_node.right_child, key);
                let ghost m = boxed_node.as_map();
                *node = Some(boxed_node);
                proof {
                    assert(opt_as_map(*node) == m);
                    if opt_as_map(*old(node)).dom().contains(key as int) {
                        assert(opt_as_map(*node) =~= opt_as_map(*old(node)).remove(key as int));
                    } else {
                        assert(opt_as_map(*node) =~= opt_as_map(*old(node)));
                    }
                }
                r
            }
        },
    }
}

impl<T: Copy> BinarySearchTree<T> {
    /// Creates an empty tree.
    pub fn new() -> (t: Self)
        ensures
            t.wf(),
            t@ == Map::<int, T>::empty(),
    {
        BinarySearchTree { root: None }
    }

    /// Adds `key` mapping to `data`; fails, leaving the tree untouched,
    /// when the key is already present.
    pub fn insert(&mut self, key: isize, data: T) -> (r: Result<(), Error>)
        requires
            old(self).wf(),
        ensures
            final(self).wf(),
            old(self)@.dom().contains(key as int) ==> r is Err && final(self)@ == old(self)@,
            !old(self)@.dom().contains(key as int) ==> r is Ok && final(self)@ == old(self)@.insert(
                key as int,
                data,
            ),
    {
        insert_opt(&mut self.root, key, data)
    }

    /// Returns the payload stored under `key`; fails when the tree is
    /// empty or the key is absent.  The tree is never changed.
    pub fn search(&mut self, key: isize) -> (r: Result<T, Error>)
        requires
            old(self).wf(),
        ensures
            *final(self) == *old(self),
            old(self)@.dom().contains(key as int) ==> r == Ok::<T, Error>(
                old(self)@[key as int],
            ),
            !old(self)@.dom().contains(key as int) ==> r is Err,
    {
        if self.root.is_none() {
            return Err(Error::new("Tree is empty"));
        }
        match search_opt(&self.root, key) {
            Some(data) => Ok(data),
            None => Err(Error::new("Key does not exist")),
        }
    }

    /// Removes `key` and returns the payload it mapped to; fails, leaving
    /// the tree untouched, when the tree is empty or the key is absent.
    pub fn remove(&mut self, key: isize) -> (r: Result<T, Error>)
        requires
            old(self).wf(),
        ensures
            final(self).wf(),
            old(self)@.dom().contains(key as int) ==> r == Ok::<T, Error>(old(self)@[key as int])
                && final(self)@ == old(self)@.remove(key as int),
            !old(self)@.dom().contains(key as int) ==> r is Err && final(self)@ == old(self)@,
    {
        if self.root.is_none() {
            return Err(Error::new("tree is empty"));
        }
        remove_opt(&mut self.root, key)
    }

    /// The number of edges from the root to the node holding `key`, or a
    /// failure when the comparison descent misses it.  The tree must not
    /// be empty.
    pub fn depth(&self, key: isize) -> (r: Result<usize, Error>)
        requires
            self.root is Some,
            spec_depth(self.root, key) matches Some(d) ==> d < usize::MAX,
        ensures
            spec_depth(self.root, key) matches Some(d) ==> (r matches Ok(u) && u == d),
            spec_depth(self.root, key) is None ==> r is Err,
    {
        depth_opt(&self.root, key)
    }

    /// The height of the tree in edges, or a failure when it is empty.
    pub fn height(&self) -> (r: Result<usize, Error>)
        requires
            self.root matches Some(n) ==> spec_height(*n) < usize::MAX,
        ensures
            self.root is None ==> r is Err,
            self.root matches Some(n) ==> (r matches Ok(h) && h == spec_height(*n)),
    {
        match &self.root {
            None => Err(Error::new("Tree is empty")),
            Some(n) => Ok(height_node(n)),
        }
    }
}

/// Walks the comparison descent, counting edges.
fn depth_opt<T>(node: &Option<Box<BinarySearchTreeNode<T>>>, key: isize) -> (r: Result<
    usize,
    Error,
>)
    requires
        spec_depth(*node, key) matches Some(d) ==> d < usize::MAX,
    ensures
        spec_depth(*node, key) matches Some(d) ==> (r matches Ok(u) && u == d),
        spec_depth(*node, key) is None ==> r is Err,
    decreases *node,
{
    match node {
        None => Err(Error::new("key not found")),
        Some(boxed_node) => {
            if boxed_node.key == key {
                Ok(0)
            } else if key < boxed_node.key {
                match depth_opt(&boxed_node.left_child, key) {
                    Ok(d) => Ok(d + 1),
                    Err(e) => Err(e),
                }
            } else {
                match depth_opt(&boxed_node.right_child, key) {
                    Ok(d) => Ok(d + 1),
                    Err(e) => Err(e),
                }
            }
        },
    }
}

/// Computes a node's height bottom-up.
fn height_node<T>(node: &BinarySearchTreeNode<T>) -> (h: usize)
    requires
        spec_height(*node) < usize::MAX,
    ensures
        h == spec_height(*node),
    decreases *node,
{
    let mut right_depth: usize = 0;
    let mut left_depth: usize = 0;
    if let Some(next_node) = &node.right_child {
        proof {
            lemma_height_nonneg(**next_node);
        }
        right_depth = height_node(next_node) + 1;
    }
    if let Some(next_node) = &node.left_child {
        proof {
            lemma_height_nonneg(**next_node);
        }
        left_depth = height_node(next_node) + 1;
    }
    if right_depth > left_depth {
        right_depth
    } else {
        left_depth
    }
}

} // verus!
