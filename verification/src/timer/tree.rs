//! Binary search tree of timeouts, keyed by expiry tick. Nodes live in a
//! caller-owned array and are linked by index; index 0 is "no node".
//! Keys equal to a node's go to its left.

use vstd::prelude::*;

verus! {

/// Index of a tree node.
pub type TreeIdx = u32;

/// Index that means "no node".
pub const IDX_NONE: TreeIdx = 0;

/// A node of the timeout tree, embedded in each thread context.
#[derive(Clone, Copy, Debug)]
pub struct TreeNode {
    pub left: TreeIdx,
    pub right: TreeIdx,
    pub key: u64,
}

impl Default for TreeNode {
    fn default() -> (r: Self)
        ensures
            r.left == IDX_NONE,
            r.right == IDX_NONE,
            r.key == 0,
    {
        TreeNode { left: IDX_NONE, right: IDX_NONE, key: 0 }
    }
}

/// Shape of a tree: which node sits where.
pub enum TreeShape {
    Leaf,
    Node(u32, Box<TreeShape>, Box<TreeShape>),
}

/// Indices of the nodes of `t`.
pub open spec fn idxs(t: TreeShape) -> Set<int>
    decreases t,
{
    match t {
        TreeShape::Leaf => Set::empty(),
        TreeShape::Node(i, l, r) => idxs(*l).union(idxs(*r)).insert(i as int),
    }
}

/// Index of the root of `t`.
pub open spec fn root_of(t: TreeShape) -> u32 {
    match t {
        TreeShape::Leaf => IDX_NONE,
        TreeShape::Node(i, _, _) => i,
    }
}

/// Key of node `j`.
pub open spec fn key_of(nodes: Seq<TreeNode>, j: int) -> u64 {
    nodes[j].key
}

/// `t` is laid out in `nodes` from `root`: links match, no node occurs
/// twice, keys on the left are not greater and keys on the right greater
/// than the node's own.
pub open spec fn wf(t: TreeShape, root: u32, nodes: Seq<TreeNode>) -> bool
    decreases t,
{
    match t {
        TreeShape::Leaf => root == IDX_NONE,
        TreeShape::Node(i, l, r) => {
            &&& root == i
            &&& 0 < i < nodes.len()
            &&& wf(*l, nodes[i as int].left, nodes)
            &&& wf(*r, nodes[i as int].right, nodes)
            &&& !idxs(*l).contains(i as int)
            &&& !idxs(*r).contains(i as int)
            &&& idxs(*l).disjoint(idxs(*r))
            &&& forall|j: int| #[trigger] idxs(*l).contains(j) ==> key_of(nodes, j) <= key_of(nodes, i as int)
            &&& forall|j: int| #[trigger] idxs(*r).contains(j) ==> key_of(nodes, j) > key_of(nodes, i as int)
        }
    }
}

/// Nodes of `t`, smallest key first.
pub open spec fn inorder(t: TreeShape) -> Seq<u32>
    decreases t,
{
    match t {
        TreeShape::Leaf => Seq::empty(),
        TreeShape::Node(i, l, r) => inorder(*l).push(i).add(inorder(*r)),
    }
}

/// `t1` with the subtree `t2` (whose root has key `k2`) hung in by key.
pub open spec fn ins(t1: TreeShape, t2: TreeShape, k2: u64, nodes: Seq<TreeNode>) -> TreeShape
    decreases t1,
{
    match t1 {
        TreeShape::Leaf => t2,
        TreeShape::Node(i, l, r) => if k2 <= key_of(nodes, i as int) {
            TreeShape::Node(i, Box::new(ins(*l, t2, k2, nodes)), r)
        } else {
            TreeShape::Node(i, l, Box::new(ins(*r, t2, k2, nodes)))
        },
    }
}

/// `t` after taking out node `idx` found by searching for `key`; a node
/// with two children is replaced by its left subtree with the right one
/// hung in.
pub open spec fn rem(t: TreeShape, idx: u32, key: u64, nodes: Seq<TreeNode>) -> TreeShape
    decreases t,
{
    match t {
        TreeShape::Leaf => TreeShape::Leaf,
        TreeShape::Node(i, l, r) => if i == idx {
            if *r is Leaf {
                *l
            } else if *l is Leaf {
                *r
            } else {
                ins(*l, *r, key_of(nodes, root_of(*r) as int), nodes)
            }
        } else if key <= key_of(nodes, i as int) {
            TreeShape::Node(i, Box::new(rem(*l, idx, key, nodes)), r)
        } else {
            TreeShape::Node(i, l, Box::new(rem(*r, idx, key, nodes)))
        },
    }
}

/// `t` split into the nodes with keys at most `s` and those above.
pub open spec fn split(t: TreeShape, s: u64, nodes: Seq<TreeNode>) -> (TreeShape, TreeShape)
    decreases t,
{
    match t {
        TreeShape::Leaf => (TreeShape::Leaf, TreeShape::Leaf),
        TreeShape::Node(i, l, r) => if key_of(nodes, i as int) <= s {
            let p = split(*r, s, nodes);
            (TreeShape::Node(i, l, Box::new(p.0)), p.1)
        } else {
            let p = split(*l, s, nodes);
            (p.0, TreeShape::Node(i, Box::new(p.1), r))
        },
    }
}

/// Leftmost node of `t`.
pub open spec fn leftmost(t: TreeShape) -> u32
    decreases t,
{
    match t {
        TreeShape::Leaf => IDX_NONE,
        TreeShape::Node(i, l, _) => if *l is Leaf {
            i
        } else {
            leftmost(*l)
        },
    }
}

/// Left subtree of `t`.
pub open spec fn left_of(t: TreeShape) -> TreeShape {
    match t {
        TreeShape::Leaf => TreeShape::Leaf,
        TreeShape::Node(_, l, _) => *l,
    }
}

/// Right subtree of `t`.
pub open spec fn right_of(t: TreeShape) -> TreeShape {
    match t {
        TreeShape::Leaf => TreeShape::Leaf,
        TreeShape::Node(_, _, r) => *r,
    }
}

/// Every key of `t2` is greater than every key of `t1`.
pub open spec fn above(t1: TreeShape, t2: TreeShape, nodes: Seq<TreeNode>) -> bool {
    forall|a: int, b: int| #[trigger] idxs(t1).contains(a) && #[trigger] idxs(t2).contains(b) ==> key_of(nodes, a) < key_of(nodes, b)
}

/// Nodes of `t` due at or before `s`.
pub open spec fn t_filter_le(t: TreeShape, nodes: Seq<TreeNode>, s: u64) -> Set<int> {
    idxs(t).filter(|j: int| nodes[j].key <= s)
}

/// Nodes of `t` due after `s`.
pub open spec fn t_filter_gt(t: TreeShape, nodes: Seq<TreeNode>, s: u64) -> Set<int> {
    idxs(t).filter(|j: int| nodes[j].key > s)
}

/// `t` is a single node.
pub open spec fn single(t: TreeShape) -> bool {
    t matches TreeShape::Node(_, l, r) && *l is Leaf && *r is Leaf
}

/// The nodes of a laid-out tree are valid nonzero indices.
pub proof fn lemma_wf_range(t: TreeShape, root: u32, nodes: Seq<TreeNode>)
    requires
        wf(t, root, nodes),
    ensures
        forall|j: int| #[trigger] idxs(t).contains(j) ==> 0 < j < nodes.len(),
        (root == IDX_NONE) == (t is Leaf),
        t is Node ==> idxs(t).contains(root as int),
    decreases t,
{
    if let TreeShape::Node(i, l, r) = t {
        lemma_wf_range(*l, nodes[i as int].left, nodes);
        lemma_wf_range(*r, nodes[i as int].right, nodes);
    }
}

/// A tree stays laid out when its own nodes are unchanged.
pub proof fn lemma_wf_frame(t: TreeShape, root: u32, n1: Seq<TreeNode>, n2: Seq<TreeNode>)
    requires
        wf(t, root, n1),
        n1.len() == n2.len(),
        forall|j: int| #[trigger] idxs(t).contains(j) ==> n2[j] == n1[j],
    ensures
        wf(t, root, n2),
    decreases t,
{
    if let TreeShape::Node(i, l, r) = t {
        assert(idxs(t).contains(i as int));
        assert forall|j: int| #[trigger] idxs(*l).contains(j) implies n2[j] == n1[j] by {
            assert(idxs(t).contains(j));
        }
        assert forall|j: int| #[trigger] idxs(*r).contains(j) implies n2[j] == n1[j] by {
            assert(idxs(t).contains(j));
        }
        lemma_wf_frame(*l, n1[i as int].left, n1, n2);
        lemma_wf_frame(*r, n1[i as int].right, n1, n2);
        assert forall|j: int| #[trigger] idxs(*l).contains(j) implies key_of(n2, j) <= key_of(n2, i as int) by {}
        assert forall|j: int| #[trigger] idxs(*r).contains(j) implies key_of(n2, j) > key_of(n2, i as int) by {}
    }
}

/// Hanging a subtree in depends on the keys only.
pub proof fn lemma_ins_keys(t1: TreeShape, t2: TreeShape, k2: u64, n1: Seq<TreeNode>, n2: Seq<TreeNode>)
    requires
        n1.len() == n2.len(),
        forall|j: int| 0 <= j < n1.len() ==> #[trigger] n1[j].key == n2[j].key,
        forall|j: int| #[trigger] idxs(t1).contains(j) ==> 0 <= j < n1.len(),
    ensures
        ins(t1, t2, k2, n1) == ins(t1, t2, k2, n2),
    decreases t1,
{
    if let TreeShape::Node(i, l, r) = t1 {
        assert(idxs(t1).contains(i as int));
        assert forall|j: int| #[trigger] idxs(*l).contains(j) implies 0 <= j < n1.len() by {
            assert(idxs(t1).contains(j));
        }
        assert forall|j: int| #[trigger] idxs(*r).contains(j) implies 0 <= j < n1.len() by {
            assert(idxs(t1).contains(j));
        }
        lemma_ins_keys(*l, t2, k2, n1, n2);
        lemma_ins_keys(*r, t2, k2, n1, n2);
        assert(key_of(n1, i as int) == key_of(n2, i as int));
    }
}

/// Hanging a subtree in keeps exactly the nodes of both.
pub proof fn lemma_ins_idxs(t1: TreeShape, t2: TreeShape, k2: u64, nodes: Seq<TreeNode>)
    ensures
        idxs(ins(t1, t2, k2, nodes)) == idxs(t1).union(idxs(t2)),
    decreases t1,
{
    if let TreeShape::Node(i, l, r) = t1 {
        lemma_ins_idxs(*l, t2, k2, nodes);
        lemma_ins_idxs(*r, t2, k2, nodes);
        assert(idxs(ins(t1, t2, k2, nodes)) =~= idxs(t1).union(idxs(t2)));
    }
}

/// Splitting a tree sorts its nodes by key into the two halves.
pub proof fn lemma_split_idxs(t: TreeShape, root: u32, s: u64, nodes: Seq<TreeNode>)
    requires
        wf(t, root, nodes),
    ensures
        idxs(split(t, s, nodes).0) == idxs(t).filter(|j: int| key_of(nodes, j) <= s),
        idxs(split(t, s, nodes).1) == idxs(t).filter(|j: int| key_of(nodes, j) > s),
    decreases t,
{
    if let TreeShape::Node(i, l, r) = t {
        let p = split(t, s, nodes);
        if key_of(nodes, i as int) <= s {
            let q = split(*r, s, nodes);
            lemma_split_idxs(*r, nodes[i as int].right, s, nodes);
            assert(p.0 == TreeShape::Node(i, l, Box::new(q.0)));
            assert(p.1 == q.1);
        } else {
            let q = split(*l, s, nodes);
            lemma_split_idxs(*l, nodes[i as int].left, s, nodes);
            assert(p.0 == q.0);
            assert(p.1 == TreeShape::Node(i, Box::new(q.1), r));
        }
        assert(idxs(p.0) =~= idxs(t).filter(|j: int| key_of(nodes, j) <= s));
        assert(idxs(p.1) =~= idxs(t).filter(|j: int| key_of(nodes, j) > s));
    }
}

/// The leftmost node of a nonempty tree has the smallest key.
pub proof fn lemma_leftmost_min(t: TreeShape, root: u32, nodes: Seq<TreeNode>)
    requires
        wf(t, root, nodes),
        t is Node,
    ensures
        idxs(t).contains(leftmost(t) as int),
        forall|j: int| #[trigger] idxs(t).contains(j) ==> key_of(nodes, leftmost(t) as int) <= key_of(nodes, j),
    decreases t,
{
    if let TreeShape::Node(i, l, r) = t {
        if !(*l is Leaf) {
            lemma_leftmost_min(*l, nodes[i as int].left, nodes);
        }
    }
}

/// In-order lists every node once, by nondecreasing key.
pub proof fn lemma_inorder(t: TreeShape, root: u32, nodes: Seq<TreeNode>)
    requires
        wf(t, root, nodes),
    ensures
        inorder(t).no_duplicates(),
        forall|x: u32| #[trigger] inorder(t).contains(x) <==> idxs(t).contains(x as int),
        forall|a: int, b: int|
            0 <= a < b < inorder(t).len() ==> key_of(nodes, #[trigger] inorder(t)[a] as int) <= key_of(nodes, #[trigger] inorder(t)[b] as int),
    decreases t,
{
    if let TreeShape::Node(i, l, r) = t {
        lemma_inorder(*l, nodes[i as int].left, nodes);
        lemma_inorder(*r, nodes[i as int].right, nodes);
        lemma_wf_range(t, root, nodes);
        let sl = inorder(*l);
        let sr = inorder(*r);
        let s = inorder(t);
        let m = sl.len() as int;
        assert(s == sl.push(i).add(sr));
        assert forall|a: int| 0 <= a < s.len() implies #[trigger] s[a] == if a < m { sl[a] } else if a == m { i } else { sr[a - m - 1] } by {}
        assert forall|x: u32| #[trigger] s.contains(x) <==> idxs(t).contains(x as int) by {
            if s.contains(x) {
                let a = s.index_of(x);
                if a < m {
                    assert(sl.contains(sl[a]));
                } else if a > m {
                    assert(sr.contains(sr[a - m - 1]));
                }
            }
            if idxs(t).contains(x as int) {
                if x == i {
                    assert(s[m] == i);
                } else if idxs(*l).contains(x as int) {
                    assert(sl.contains(x));
                    let a = sl.index_of(x);
                    assert(s[a] == x);
                } else {
                    assert(idxs(*r).contains(x as int));
                    assert(sr.contains(x));
                    let a = sr.index_of(x);
                    assert(s[a + m + 1] == x);
                }
            }
        }
        assert forall|a: int, b: int| 0 <= a < b < s.len() implies key_of(nodes, #[trigger] s[a] as int) <= key_of(nodes, #[trigger] s[b] as int) by {
            if a < m {
                assert(sl.contains(sl[a]));
                assert(idxs(*l).contains(sl[a] as int));
                if b > m {
                    assert(sr.contains(sr[b - m - 1]));
                    assert(idxs(*r).contains(sr[b - m - 1] as int));
                }
            } else if a == m {
                assert(sr.contains(sr[b - m - 1]));
                assert(idxs(*r).contains(sr[b - m - 1] as int));
            }
        }
        assert forall|a: int, b: int| 0 <= a < s.len() && 0 <= b < s.len() && a != b implies s[a] != s[b] by {
            if a < m && b > m {
                assert(sl.contains(sl[a]));
                assert(sr.contains(sr[b - m - 1]));
                assert(idxs(*l).contains(sl[a] as int));
                assert(idxs(*r).contains(sr[b - m - 1] as int));
            } else if a > m && b < m {
                assert(sl.contains(sl[b]));
                assert(sr.contains(sr[a - m - 1]));
                assert(idxs(*l).contains(sl[b] as int));
                assert(idxs(*r).contains(sr[a - m - 1] as int));
            } else if a == m && b < m {
                assert(sl.contains(sl[b]));
            } else if a == m && b > m {
                assert(sr.contains(sr[b - m - 1]));
            } else if b == m && a < m {
                assert(sl.contains(sl[a]));
            } else if b == m && a > m {
                assert(sr.contains(sr[a - m - 1]));
            }
        }
    }
}

/// A timeout tree: the index of its root in the node array.
pub struct TimeoutTree {
    pub root: TreeIdx,
    /// The tree's shape.
    pub shape: Ghost<TreeShape>,
}

impl View for TimeoutTree {
    type V = TreeShape;

    open spec fn view(&self) -> TreeShape {
        self.shape@
    }
}

impl TimeoutTree {
    /// The tree is laid out in `nodes`.
    pub open spec fn inv(&self, nodes: Seq<TreeNode>) -> bool {
        wf(self@, self.root, nodes)
    }

    /// Indices of the nodes in the tree.
    pub open spec fn contents(&self) -> Set<int> {
        idxs(self@)
    }

    /// A laid-out tree is empty exactly when its root is `IDX_NONE`.
    pub proof fn lemma_empty(&self, nodes: Seq<TreeNode>)
        requires
            self.inv(nodes),
        ensures
            (self.root == IDX_NONE) == (self.contents() == Set::<int>::empty()),
            forall|j: int| #[trigger] self.contents().contains(j) ==> 0 < j < nodes.len(),
    {
        lemma_wf_range(self@, self.root, nodes);
        if self.root != IDX_NONE {
            assert(self.contents().contains(self.root as int));
        }
    }

    /// An empty tree.
    pub fn new() -> (r: Self)
        ensures
            r.root == IDX_NONE,
            r@ is Leaf,
            forall|nodes: Seq<TreeNode>| r.inv(nodes),
            r.contents() == Set::<int>::empty(),
    {
        TimeoutTree { root: IDX_NONE, shape: Ghost(TreeShape::Leaf) }
    }

    /// Hang the subtree rooted at `idx` into the tree rooted at `root`;
    /// returns the new root.
    fn insert(
        nodes: &mut [TreeNode],
        root: TreeIdx,
        idx: TreeIdx,
        Ghost(t1): Ghost<TreeShape>,
        Ghost(t2): Ghost<TreeShape>,
    ) -> (r: TreeIdx)
        requires
            wf(t1, root, old(nodes)@),
            wf(t2, idx, old(nodes)@),
            t2 is Node,
            idxs(t1).disjoint(idxs(t2)),
            single(t2) || above(t1, t2, old(nodes)@),
        ensures
            wf(ins(t1, t2, key_of(old(nodes)@, idx as int), old(nodes)@), r, final(nodes)@),
            final(nodes)@.len() == old(nodes)@.len(),
            forall|j: int| 0 <= j < final(nodes)@.len() ==> #[trigger] final(nodes)@[j].key == old(nodes)@[j].key,
            forall|j: int| 0 <= j < final(nodes)@.len() && !idxs(t1).contains(j) ==> #[trigger] final(nodes)@[j] == old(nodes)@[j],
        decreases t1,
    {
        let ghost n0 = nodes@;
        proof {
            lemma_wf_range(t1, root, n0);
            lemma_wf_range(t2, idx, n0);
            lemma_ins_idxs(left_of(t1), t2, key_of(n0, idx as int), n0);
            lemma_ins_idxs(right_of(t1), t2, key_of(n0, idx as int), n0);
        }
        if root == IDX_NONE {
            return idx;
        }
        let ghost l = left_of(t1);
        let ghost r = right_of(t1);
        let ghost k2 = key_of(n0, idx as int);
        proof {
            assert(idxs(t1).contains(root as int));
            assert(idxs(t2).contains(idx as int));
        }
        if nodes[idx as usize].key <= nodes[root as usize].key {
            let left = nodes[root as usize].left;
            let new_left = Self::insert(nodes, left, idx, Ghost(l), Ghost(t2));
            let ghost n1 = nodes@;
            nodes[root as usize].left = new_left;
            proof {
                let li = ins(l, t2, k2, n0);
                assert(ins(t1, t2, k2, n0) == TreeShape::Node(root, Box::new(li), Box::new(r)));
                assert(!idxs(l).contains(root as int));
                lemma_wf_range(li, nodes@[root as int].left, n1);
                assert forall|j: int| #[trigger] idxs(li).contains(j) implies nodes@[j] == n1[j] by {
                    assert(j != root as int);
                }
                assert forall|j: int| #[trigger] idxs(r).contains(j) implies nodes@[j] == n0[j] by {
                    assert(idxs(t1).contains(j));
                    assert(j != root as int);
                    assert(!idxs(l).contains(j));
                }
                lemma_wf_frame(li, new_left, n1, nodes@);
                lemma_wf_frame(r, n0[root as int].right, n0, nodes@);
                if !single(t2) {
                    assert(idxs(t1).contains(root as int));
                    assert(key_of(n0, root as int) < key_of(n0, idx as int));
                }
                assert forall|j: int| #[trigger] idxs(li).contains(j) implies key_of(nodes@, j) <= key_of(nodes@, root as int) by {
                    if idxs(t2).contains(j) {
                        assert(j == idx);
                    }
                }
                assert forall|j: int| #[trigger] idxs(r).contains(j) implies key_of(nodes@, j) > key_of(nodes@, root as int) by {}
                assert(idxs(li).disjoint(idxs(r))) by {
                    assert forall|j: int| idxs(li).contains(j) implies !idxs(r).contains(j) by {
                        if idxs(t2).contains(j) {
                            assert(!idxs(t1).contains(j));
                        }
                    }
                }
            }
        } else {
            let right = nodes[root as usize].right;
            proof {
                if !single(t2) {
                    assert forall|a: int, b: int| #[trigger] idxs(r).contains(a) && #[trigger] idxs(t2).contains(b) implies key_of(n0, a)
                        < key_of(n0, b) by {
                        assert(idxs(t1).contains(a));
                    }
                }
            }
            let new_right = Self::insert(nodes, right, idx, Ghost(r), Ghost(t2));
            let ghost n1 = nodes@;
            nodes[root as usize].right = new_right;
            proof {
                let ri = ins(r, t2, k2, n0);
                assert(ins(t1, t2, k2, n0) == TreeShape::Node(root, Box::new(l), Box::new(ri)));
                assert(!idxs(r).contains(root as int));
                lemma_wf_range(ri, nodes@[root as int].right, n1);
                assert forall|j: int| #[trigger] idxs(ri).contains(j) implies nodes@[j] == n1[j] by {
                    assert(j != root as int);
                }
                assert forall|j: int| #[trigger] idxs(l).contains(j) implies nodes@[j] == n0[j] by {
                    assert(idxs(t1).contains(j));
                    assert(j != root as int);
                    assert(!idxs(r).contains(j));
                }
                lemma_wf_frame(ri, new_right, n1, nodes@);
                lemma_wf_frame(l, n0[root as int].left, n0, nodes@);
                assert forall|j: int| #[trigger] idxs(ri).contains(j) implies key_of(nodes@, j) > key_of(nodes@, root as int) by {
                    if idxs(t2).contains(j) && single(t2) {
                        assert(j == idx);
                    }
                }
                assert forall|j: int| #[trigger] idxs(l).contains(j) implies key_of(nodes@, j) <= key_of(nodes@, root as int) by {}
                assert(idxs(l).disjoint(idxs(ri))) by {
                    assert forall|j: int| idxs(ri).contains(j) implies !idxs(l).contains(j) by {
                        if idxs(t2).contains(j) {
                            assert(!idxs(t1).contains(j));
                        }
                    }
                }
            }
        }
        root
    }

    /// Put node `idx` into the tree with expiry `key`.
    pub fn add(&mut self, nodes: &mut [TreeNode], idx: TreeIdx, key: u64)
        requires
            old(self).inv(old(nodes)@),
            0 < idx < old(nodes)@.len(),
            !old(self).contents().contains(idx as int),
        ensures
            final(self).inv(final(nodes)@),
            final(self).contents() == old(self).contents().insert(idx as int),
            final(nodes)@.len() == old(nodes)@.len(),
            final(nodes)@[idx as int].key == key,
            forall|j: int| 0 <= j < old(nodes)@.len() && j != idx ==> #[trigger] final(nodes)@[j].key == old(nodes)@[j].key,
            forall|j: int|
                0 <= j < old(nodes)@.len() && j != idx && !old(self).contents().contains(j) ==> #[trigger] final(nodes)@[j]
                    == old(nodes)@[j],
    {
        let ghost n0 = nodes@;
        nodes[idx as usize].key = key;
        nodes[idx as usize].left = IDX_NONE;
        nodes[idx as usize].right = IDX_NONE;
        let ghost n1 = nodes@;
        let ghost t2 = TreeShape::Node(idx, Box::new(TreeShape::Leaf), Box::new(TreeShape::Leaf));
        proof {
            lemma_wf_range(self@, self.root, n0);
            assert forall|j: int| #[trigger] idxs(self@).contains(j) implies n1[j] == n0[j] by {}
            lemma_wf_frame(self@, self.root, n0, n1);
            assert(idxs(TreeShape::Leaf) == Set::<int>::empty());
            assert(n1[idx as int].left == IDX_NONE && n1[idx as int].right == IDX_NONE);
            assert(idxs(t2) =~= set![idx as int]);
            assert(wf(TreeShape::Leaf, IDX_NONE, n1));
            assert(wf(t2, idx, n1));
            assert(idxs(self@).disjoint(idxs(t2)));
            lemma_ins_idxs(self@, t2, key, n1);
        }
        let root = Self::insert(nodes, self.root, idx, Ghost(self@), Ghost(t2));
        self.root = root;
        self.shape = Ghost(ins(old(self)@, t2, key, n1));
        proof {
            assert(self.contents() =~= old(self).contents().insert(idx as int));
        }
    }

    /// Take node `idx` out of the subtree `t` rooted at `root`, searching
    /// by `key`; returns the new root.
    fn remove_impl(nodes: &mut [TreeNode], root: TreeIdx, idx: TreeIdx, key: u64, Ghost(t): Ghost<TreeShape>) -> (r: TreeIdx)
        requires
            wf(t, root, old(nodes)@),
        ensures
            wf(rem(t, idx, key, old(nodes)@), r, final(nodes)@),
            idxs(rem(t, idx, key, old(nodes)@)) == idxs(t) || idxs(rem(t, idx, key, old(nodes)@)) == idxs(t).remove(idx as int),
            idxs(t).contains(idx as int) && key_of(old(nodes)@, idx as int) == key ==> !idxs(rem(t, idx, key, old(nodes)@)).contains(
                idx as int,
            ),
            idxs(rem(t, idx, key, old(nodes)@)) != idxs(t) ==> final(nodes)@[idx as int].left == IDX_NONE
                && final(nodes)@[idx as int].right == IDX_NONE,
            final(nodes)@.len() == old(nodes)@.len(),
            forall|j: int| 0 <= j < final(nodes)@.len() ==> #[trigger] final(nodes)@[j].key == old(nodes)@[j].key,
            forall|j: int| 0 <= j < final(nodes)@.len() && !idxs(t).contains(j) ==> #[trigger] final(nodes)@[j] == old(nodes)@[j],
        decreases t,
    {
        let ghost n0 = nodes@;
        proof {
            lemma_wf_range(t, root, n0);
        }
        if root == IDX_NONE {
            return IDX_NONE;
        }
        let ghost l = left_of(t);
        let ghost r = right_of(t);
        proof {
            assert(idxs(t).contains(root as int));
            lemma_wf_range(l, n0[root as int].left, n0);
            lemma_wf_range(r, n0[root as int].right, n0);
        }
        if root == idx {
            let left = nodes[root as usize].left;
            let right = nodes[root as usize].right;
            nodes[root as usize].left = IDX_NONE;
            nodes[root as usize].right = IDX_NONE;
            let ghost n1 = nodes@;
            proof {
                assert forall|j: int| #[trigger] idxs(l).contains(j) implies n1[j] == n0[j] by {}
                assert forall|j: int| #[trigger] idxs(r).contains(j) implies n1[j] == n0[j] by {}
                lemma_wf_frame(l, left, n0, n1);
                lemma_wf_frame(r, right, n0, n1);
            }
            if right == IDX_NONE {
                proof {
                    assert(idxs(l) =~= idxs(t).remove(idx as int));
                }
                return left;
            }
            if left == IDX_NONE {
                proof {
                    assert(idxs(r) =~= idxs(t).remove(idx as int));
                }
                return right;
            }
            proof {
                assert forall|a: int, b: int| #[trigger] idxs(l).contains(a) && #[trigger] idxs(r).contains(b) implies key_of(n1, a)
                    < key_of(n1, b) by {}
                assert(idxs(r).contains(right as int));
                lemma_ins_keys(l, r, key_of(n0, right as int), n0, n1);
                lemma_ins_idxs(l, r, key_of(n0, right as int), n0);
                assert(idxs(ins(l, r, key_of(n0, right as int), n0)) =~= idxs(t).remove(idx as int));
            }
            let nr = Self::insert(nodes, left, right, Ghost(l), Ghost(r));
            return nr;
        }
        if key <= nodes[root as usize].key {
            let left = nodes[root as usize].left;
            let new_left = Self::remove_impl(nodes, left, idx, key, Ghost(l));
            let ghost n1 = nodes@;
            nodes[root as usize].left = new_left;
            proof {
                let lr = rem(l, idx, key, n0);
                assert(rem(t, idx, key, n0) == TreeShape::Node(root, Box::new(lr), Box::new(r)));
                lemma_wf_range(lr, new_left, n1);
                assert forall|j: int| #[trigger] idxs(lr).contains(j) implies nodes@[j] == n1[j] by {
                    assert(idxs(l).contains(j));
                }
                assert forall|j: int| #[trigger] idxs(r).contains(j) implies nodes@[j] == n0[j] by {
                    assert(!idxs(l).contains(j));
                }
                lemma_wf_frame(lr, new_left, n1, nodes@);
                lemma_wf_frame(r, n0[root as int].right, n0, nodes@);
                assert forall|j: int| #[trigger] idxs(lr).contains(j) implies key_of(nodes@, j) <= key_of(nodes@, root as int) by {
                    assert(idxs(l).contains(j));
                }
                assert forall|j: int| #[trigger] idxs(r).contains(j) implies key_of(nodes@, j) > key_of(nodes@, root as int) by {}
                assert(idxs(lr).disjoint(idxs(r))) by {
                    assert forall|j: int| idxs(lr).contains(j) implies !idxs(r).contains(j) by {
                        assert(idxs(l).contains(j));
                    }
                }
                if idxs(lr) == idxs(l) {
                    assert(idxs(rem(t, idx, key, n0)) =~= idxs(t));
                } else {
                    if !idxs(l).contains(idx as int) {
                        assert(idxs(l).remove(idx as int) =~= idxs(l));
                    }
                    assert(!idxs(r).contains(idx as int));
                    assert(idxs(rem(t, idx, key, n0)) =~= idxs(t).remove(idx as int));
                }
                if idxs(t).contains(idx as int) && key_of(n0, idx as int) == key {
                    assert(!idxs(r).contains(idx as int));
                }
            }
        } else {
            let right = nodes[root as usize].right;
            let new_right = Self::remove_impl(nodes, right, idx, key, Ghost(r));
            let ghost n1 = nodes@;
            nodes[root as usize].right = new_right;
            proof {
                let rr = rem(r, idx, key, n0);
                assert(rem(t, idx, key, n0) == TreeShape::Node(root, Box::new(l), Box::new(rr)));
                lemma_wf_range(rr, new_right, n1);
                assert forall|j: int| #[trigger] idxs(rr).contains(j) implies nodes@[j] == n1[j] by {
                    assert(idxs(r).contains(j));
                }
                assert forall|j: int| #[trigger] idxs(l).contains(j) implies nodes@[j] == n0[j] by {
                    assert(!idxs(r).contains(j));
                }
                lemma_wf_frame(rr, new_right, n1, nodes@);
                lemma_wf_frame(l, n0[root as int].left, n0, nodes@);
                assert forall|j: int| #[trigger] idxs(rr).contains(j) implies key_of(nodes@, j) > key_of(nodes@, root as int) by {
                    assert(idxs(r).contains(j));
                }
                assert forall|j: int| #[trigger] idxs(l).contains(j) implies key_of(nodes@, j) <= key_of(nodes@, root as int) by {}
                assert(idxs(l).disjoint(idxs(rr))) by {
                    assert forall|j: int| idxs(rr).contains(j) implies !idxs(l).contains(j) by {
                        assert(idxs(r).contains(j));
                    }
                }
                if idxs(rr) == idxs(r) {
                    assert(idxs(rem(t, idx, key, n0)) =~= idxs(t));
                } else {
                    if !idxs(r).contains(idx as int) {
                        assert(idxs(r).remove(idx as int) =~= idxs(r));
                    }
                    assert(!idxs(l).contains(idx as int));
                    assert(idxs(rem(t, idx, key, n0)) =~= idxs(t).remove(idx as int));
                }
                if idxs(t).contains(idx as int) && key_of(n0, idx as int) == key {
                    assert(!idxs(l).contains(idx as int));
                }
            }
        }
        root
    }

    /// Take node `idx`, whose expiry is `key`, out of the tree. A node
    /// that is not in the tree leaves it unchanged; one that is, with that
    /// key, is always found.
    pub fn remove(&mut self, nodes: &mut [TreeNode], idx: TreeIdx, key: u64)
        requires
            old(self).inv(old(nodes)@),
        ensures
            final(self).inv(final(nodes)@),
            final(self).contents() == old(self).contents() || final(self).contents() == old(self).contents().remove(idx as int),
            old(self).contents().contains(idx as int) && old(nodes)@[idx as int].key == key ==> final(self).contents()
                == old(self).contents().remove(idx as int),
            final(self).contents() != old(self).contents() ==> final(nodes)@[idx as int].left == IDX_NONE
                && final(nodes)@[idx as int].right == IDX_NONE,
            final(nodes)@.len() == old(nodes)@.len(),
            forall|j: int| 0 <= j < final(nodes)@.len() ==> #[trigger] final(nodes)@[j].key == old(nodes)@[j].key,
            forall|j: int|
                0 <= j < final(nodes)@.len() && !old(self).contents().contains(j) ==> #[trigger] final(nodes)@[j]
                    == old(nodes)@[j],
    {
        let ghost n0 = nodes@;
        let root = Self::remove_impl(nodes, self.root, idx, key, Ghost(self@));
        self.root = root;
        self.shape = Ghost(rem(old(self)@, idx, key, n0));
        proof {
            if old(self).contents().contains(idx as int) && n0[idx as int].key == key {
                assert(!self.contents().contains(idx as int));
                if self.contents() == old(self).contents() {
                    assert(false);
                }
            }
        }
    }

    /// Split the subtree `t` rooted at `cur` into the nodes with keys at
    /// most `split_key` and those above; returns the two roots.
    fn bisect_impl(nodes: &mut [TreeNode], cur: TreeIdx, split_key: u64, Ghost(t): Ghost<TreeShape>) -> (r: (TreeIdx, TreeIdx))
        requires
            wf(t, cur, old(nodes)@),
        ensures
            wf(split(t, split_key, old(nodes)@).0, r.0, final(nodes)@),
            wf(split(t, split_key, old(nodes)@).1, r.1, final(nodes)@),
            final(nodes)@.len() == old(nodes)@.len(),
            forall|j: int| 0 <= j < final(nodes)@.len() ==> #[trigger] final(nodes)@[j].key == old(nodes)@[j].key,
            forall|j: int| 0 <= j < final(nodes)@.len() && !idxs(t).contains(j) ==> #[trigger] final(nodes)@[j] == old(nodes)@[j],
        decreases t,
    {
        let ghost n0 = nodes@;
        proof {
            lemma_wf_range(t, cur, n0);
        }
        if cur == IDX_NONE {
            return (IDX_NONE, IDX_NONE);
        }
        let ghost l = left_of(t);
        let ghost r = right_of(t);
        proof {
            assert(idxs(t).contains(cur as int));
            lemma_wf_range(l, n0[cur as int].left, n0);
            lemma_wf_range(r, n0[cur as int].right, n0);
        }
        if nodes[cur as usize].key <= split_key {
            let right = nodes[cur as usize].right;
            let (a, b) = Self::bisect_impl(nodes, right, split_key, Ghost(r));
            let ghost n1 = nodes@;
            nodes[cur as usize].right = a;
            proof {
                let p = split(r, split_key, n0);
                assert(split(t, split_key, n0) == (TreeShape::Node(cur, Box::new(l), Box::new(p.0)), p.1));
                lemma_split_idxs(r, n0[cur as int].right, split_key, n0);
                lemma_wf_range(p.0, a, n1);
                lemma_wf_range(p.1, b, n1);
                assert forall|j: int| #[trigger] idxs(p.0).contains(j) implies nodes@[j] == n1[j] by {
                    assert(idxs(r).contains(j));
                }
                assert forall|j: int| #[trigger] idxs(p.1).contains(j) implies nodes@[j] == n1[j] by {
                    assert(idxs(r).contains(j));
                }
                assert forall|j: int| #[trigger] idxs(l).contains(j) implies nodes@[j] == n0[j] by {
                    assert(!idxs(r).contains(j));
                }
                lemma_wf_frame(p.0, a, n1, nodes@);
                lemma_wf_frame(p.1, b, n1, nodes@);
                lemma_wf_frame(l, n0[cur as int].left, n0, nodes@);
                assert forall|j: int| #[trigger] idxs(p.0).contains(j) implies key_of(nodes@, j) > key_of(nodes@, cur as int) by {
                    assert(idxs(r).contains(j));
                }
                assert forall|j: int| #[trigger] idxs(l).contains(j) implies key_of(nodes@, j) <= key_of(nodes@, cur as int) by {}
                assert(idxs(l).disjoint(idxs(p.0))) by {
                    assert forall|j: int| idxs(p.0).contains(j) implies !idxs(l).contains(j) by {
                        assert(idxs(r).contains(j));
                    }
                }
            }
            (cur, b)
        } else {
            let left = nodes[cur as usize].left;
            let (a, b) = Self::bisect_impl(nodes, left, split_key, Ghost(l));
            let ghost n1 = nodes@;
            nodes[cur as usize].left = b;
            proof {
                let p = split(l, split_key, n0);
                assert(split(t, split_key, n0) == (p.0, TreeShape::Node(cur, Box::new(p.1), Box::new(r))));
                lemma_split_idxs(l, n0[cur as int].left, split_key, n0);
                lemma_wf_range(p.0, a, n1);
                lemma_wf_range(p.1, b, n1);
                assert forall|j: int| #[trigger] idxs(p.0).contains(j) implies nodes@[j] == n1[j] by {
                    assert(idxs(l).contains(j));
                }
                assert forall|j: int| #[trigger] idxs(p.1).contains(j) implies nodes@[j] == n1[j] by {
                    assert(idxs(l).contains(j));
                }
                assert forall|j: int| #[trigger] idxs(r).contains(j) implies nodes@[j] == n0[j] by {
                    assert(!idxs(l).contains(j));
                }
                lemma_wf_frame(p.0, a, n1, nodes@);
                lemma_wf_frame(p.1, b, n1, nodes@);
                lemma_wf_frame(r, n0[cur as int].right, n0, nodes@);
                assert forall|j: int| #[trigger] idxs(p.1).contains(j) implies key_of(nodes@, j) <= key_of(nodes@, cur as int) by {
                    assert(idxs(l).contains(j));
                }
                assert forall|j: int| #[trigger] idxs(r).contains(j) implies key_of(nodes@, j) > key_of(nodes@, cur as int) by {}
                assert(idxs(p.1).disjoint(idxs(r))) by {
                    assert forall|j: int| idxs(p.1).contains(j) implies !idxs(r).contains(j) by {
                        assert(idxs(l).contains(j));
                    }
                }
            }
            (a, cur)
        }
    }

    /// Split the tree into the timeouts due at or before `split_key` and
    /// those after it; the tree itself is left empty.
    pub fn bisect(&mut self, nodes: &mut [TreeNode], split_key: u64) -> (r: (TimeoutTree, TimeoutTree))
        requires
            old(self).inv(old(nodes)@),
        ensures
            final(self).inv(final(nodes)@),
            final(self).contents() == Set::<int>::empty(),
            r.0.inv(final(nodes)@),
            r.1.inv(final(nodes)@),
            r.0.contents() == old(self).contents().filter(|j: int| old(nodes)@[j].key <= split_key),
            r.1.contents() == old(self).contents().filter(|j: int| old(nodes)@[j].key > split_key),
            final(nodes)@.len() == old(nodes)@.len(),
            forall|j: int| 0 <= j < final(nodes)@.len() ==> #[trigger] final(nodes)@[j].key == old(nodes)@[j].key,
            forall|j: int|
                0 <= j < final(nodes)@.len() && !old(self).contents().contains(j) ==> #[trigger] final(nodes)@[j]
                    == old(nodes)@[j],
    {
        let ghost n0 = nodes@;
        let ghost t = self@;
        let root = self.root;
        self.root = IDX_NONE;
        self.shape = Ghost(TreeShape::Leaf);
        let (a, b) = Self::bisect_impl(nodes, root, split_key, Ghost(t));
        proof {
            lemma_split_idxs(t, root, split_key, n0);
            assert(idxs(split(t, split_key, n0).0) =~= t_filter_le(t, n0, split_key));
            assert(idxs(split(t, split_key, n0).1) =~= t_filter_gt(t, n0, split_key));
        }
        let le = TimeoutTree { root: a, shape: Ghost(split(t, split_key, n0).0) };
        let gt = TimeoutTree { root: b, shape: Ghost(split(t, split_key, n0).1) };
        (le, gt)
    }

    /// The node with the smallest expiry (the leftmost), or `IDX_NONE`
    /// when the tree is empty.
    pub fn min(&self, nodes: &[TreeNode]) -> (r: TreeIdx)
        requires
            self.inv(nodes@),
        ensures
            r == leftmost(self@),
            (r == IDX_NONE) == (self.contents() == Set::<int>::empty()),
            r != IDX_NONE ==> self.contents().contains(r as int),
            forall|j: int| #[trigger] self.contents().contains(j) ==> nodes@[r as int].key <= nodes@[j].key,
    {
        proof {
            self.lemma_empty(nodes@);
        }
        let mut cur = self.root;
        if cur == IDX_NONE {
            return IDX_NONE;
        }
        let ghost mut s = self@;
        proof {
            lemma_leftmost_min(self@, self.root, nodes@);
        }
        while nodes[cur as usize].left != IDX_NONE
            invariant
                wf(s, cur, nodes@),
                s is Node,
                leftmost(s) == leftmost(self@),
            decreases s,
        {
            proof {
                lemma_wf_range(left_of(s), nodes@[cur as int].left, nodes@);
                s = left_of(s);
            }
            cur = nodes[cur as usize].left;
        }
        proof {
            lemma_wf_range(left_of(s), nodes@[cur as int].left, nodes@);
        }
        cur
    }

    /// Append the nodes of the subtree `t` rooted at `root` to `out`, in
    /// order.
    fn iterate_inorder(nodes: &[TreeNode], root: TreeIdx, out: &mut Vec<TreeIdx>, Ghost(t): Ghost<TreeShape>)
        requires
            wf(t, root, nodes@),
        ensures
            final(out)@ == old(out)@ + inorder(t),
        decreases t,
    {
        if root == IDX_NONE {
            proof {
                assert(old(out)@ + inorder(t) =~= old(out)@);
            }
            return ;
        }
        let ghost l = left_of(t);
        let ghost r = right_of(t);
        Self::iterate_inorder(nodes, nodes[root as usize].left, out, Ghost(l));
        out.push(root);
        Self::iterate_inorder(nodes, nodes[root as usize].right, out, Ghost(r));
        proof {
            assert(inorder(t) == inorder(l).push(root).add(inorder(r)));
            assert(old(out)@ + inorder(t) =~= old(out)@ + inorder(l) + seq![root] + inorder(r));
        }
    }

    /// Append all nodes to `out` by nondecreasing expiry and empty the tree.
    pub fn collect_and_clear(&mut self, nodes: &[TreeNode], out: &mut Vec<TreeIdx>)
        requires
            old(self).inv(nodes@),
        ensures
            final(self).inv(nodes@),
            final(self).contents() == Set::<int>::empty(),
            final(out)@ == old(out)@ + inorder(old(self)@),
            inorder(old(self)@).no_duplicates(),
            forall|x: u32| #[trigger] inorder(old(self)@).contains(x) <==> old(self).contents().contains(x as int),
            forall|a: int, b: int|
                0 <= a < b < inorder(old(self)@).len() ==> nodes@[#[trigger] inorder(old(self)@)[a] as int].key
                    <= nodes@[#[trigger] inorder(old(self)@)[b] as int].key,
    {
        proof {
            lemma_inorder(self@, self.root, nodes@);
        }
        Self::iterate_inorder(nodes, self.root, out, Ghost(self@));
        self.root = IDX_NONE;
        self.shape = Ghost(TreeShape::Leaf);
    }

    /// Whether the tree has no node.
    pub fn is_empty(&self) -> (r: bool)
        ensures
            r == (self.root == IDX_NONE),
    {
        self.root == IDX_NONE
    }
}

/// Taking out a timeout just added, under the key it was added with,
/// leaves the tree with the nodes it had before.
pub proof fn law_remove_undoes_add(
    t0: TimeoutTree,
    n0: Seq<TreeNode>,
    t1: TimeoutTree,
    n1: Seq<TreeNode>,
    t2: TimeoutTree,
    idx: u32,
    key: u64,
)
    requires
        t0.inv(n0),
        0 < idx < n0.len(),
        !t0.contents().contains(idx as int),
        t1.inv(n1),
        t1.contents() == t0.contents().insert(idx as int),
        n1[idx as int].key == key,
        t1.contents().contains(idx as int) && n1[idx as int].key == key ==> t2.contents() == t1.contents().remove(idx as int),
    ensures
        t2.contents() == t0.contents(),
{
    assert(t0.contents().insert(idx as int).remove(idx as int) =~= t0.contents());
}

/// Splitting a tree at a key parts its nodes: each lands in exactly one
/// half, by its key.
pub proof fn law_bisect_parts(s: Set<int>, nodes: Seq<TreeNode>, split_key: u64, le: Set<int>, gt: Set<int>)
    requires
        le == s.filter(|j: int| nodes[j].key <= split_key),
        gt == s.filter(|j: int| nodes[j].key > split_key),
    ensures
        le.union(gt) == s,
        le.disjoint(gt),
{
    assert(le.union(gt) =~= s);
}

impl Default for TimeoutTree {
    fn default() -> (r: Self)
        ensures
            r.root == IDX_NONE,
            r@ is Leaf,
    {
        Self::new()
    }
}

} // verus!
