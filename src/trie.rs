//! A prefix trie keyed by sequences of interned path components.

use vstd::prelude::*;

verus! {

/// A key within a [`TrieMap`], broken into its components.
pub trait TrieKey {
    spec fn components(&self) -> Seq<usize>;

    fn as_components(&self) -> (r: Vec<usize>)
        ensures
            r@ == self.components(),
    ;
}

/// A path whose components are keys of an interner.
#[derive(Debug, Clone)]
pub struct InternedPath(pub Vec<usize>);

impl TrieKey for InternedPath {
    open spec fn components(&self) -> Seq<usize> {
        self.0@
    }

    fn as_components(&self) -> (r: Vec<usize>) {
        self.0.clone()
    }
}

/// A single node within a [`TrieMap`].
///
/// An edge keeps its children ordered by component, with `count` the number
/// of leaves beneath it.
#[derive(Debug)]
pub enum TrieNode<E, L> {
    Edge { children: Vec<(usize, TrieNode<E, L>)>, data: E, count: usize },
    Leaf { data: L },
}

/// Number of leaves that a node stands for: one for a leaf, the count an edge keeps.
pub open spec fn weight<E, L>(n: TrieNode<E, L>) -> nat {
    match n {
        TrieNode::Edge { count, .. } => count as nat,
        TrieNode::Leaf { .. } => 1,
    }
}

/// Sum of the weights of a sequence of children.
pub open spec fn sum_weights<E, L>(s: Seq<(usize, TrieNode<E, L>)>) -> nat
    decreases s.len(),
{
    if s.len() == 0 {
        0
    } else {
        sum_weights(s.drop_last()) + weight(s.last().1)
    }
}

/// Children ordered strictly by component, so no component appears twice.
pub open spec fn sorted_keys<E, L>(s: Seq<(usize, TrieNode<E, L>)>) -> bool {
    forall|i: int, j: int| 0 <= i < j < s.len() ==> s[i].0 < s[j].0
}

/// Index of the child with component `k`.
pub open spec fn child_index<E, L>(s: Seq<(usize, TrieNode<E, L>)>, k: usize) -> Option<int> {
    if exists|i: int| 0 <= i < s.len() && s[i].0 == k {
        Some(choose|i: int| 0 <= i < s.len() && s[i].0 == k)
    } else {
        None
    }
}

impl<E, L> TrieNode<E, L> {
    /// Every edge beneath has ordered children and the right leaf count.
    pub open spec fn wf(self) -> bool
        decreases self,
    {
        match self {
            TrieNode::Edge { children, count, .. } => {
                &&& sorted_keys(children@)
                &&& count == sum_weights(children@)
                &&& forall|i: int|
                    0 <= i < children@.len() ==> (#[trigger] children@[i]).1.wf()
            },
            TrieNode::Leaf { .. } => true,
        }
    }

    /// The node reached by following `path` from this one.
    pub open spec fn node_at(self, path: Seq<usize>) -> Option<TrieNode<E, L>>
        decreases path.len(),
    {
        if path.len() == 0 {
            Some(self)
        } else {
            match self {
                TrieNode::Leaf { .. } => None,
                TrieNode::Edge { children, .. } => match child_index(children@, path[0]) {
                    Some(i) => children@[i].1.node_at(path.drop_first()),
                    None => None,
                },
            }
        }
    }

    /// The leaf data at `path`, if the path leads to a leaf.
    pub open spec fn leaf_at(self, path: Seq<usize>) -> Option<L> {
        match self.node_at(path) {
            Some(TrieNode::Leaf { data }) => Some(data),
            _ => None,
        }
    }

    /// Whether this node is a leaf.
    pub fn is_leaf(&self) -> (r: bool)
        ensures
            r == (self is Leaf),
    {
        match self {
            TrieNode::Leaf { .. } => true,
            TrieNode::Edge { .. } => false,
        }
    }

    /// Number of leaves this node stands for.
    pub fn leaf_count(&self) -> (r: usize)
        ensures
            r == weight(*self),
    {
        match self {
            TrieNode::Edge { count, .. } => *count,
            TrieNode::Leaf { .. } => 1,
        }
    }

    /// The child with component `k`, if there is one.
    pub fn child(&self, k: usize) -> (r: Option<&TrieNode<E, L>>)
        requires
            self.wf(),
        ensures
            match *self {
                TrieNode::Leaf { .. } => r is None,
                TrieNode::Edge { children, .. } => match child_index(children@, k) {
                    Some(i) => r == Some(&children@[i].1),
                    None => r is None,
                },
            },
    {
        match self {
            TrieNode::Leaf { .. } => None,
            TrieNode::Edge { children, .. } => {
                assert(*self matches TrieNode::Edge { children: c, .. } && c == *children);
                assert(sorted_keys(children@));
                let mut j: usize = 0;
                while j < children.len()
                    invariant
                        j <= children@.len(),
                        forall|m: int| 0 <= m < j ==> children@[m].0 != k,
                        sorted_keys(children@),
                        *self matches TrieNode::Edge { children: c, .. } && c == *children,
                    decreases children@.len() - j,
                {
                    if children[j].0 == k {
                        proof {
                            let c = choose|i: int| 0 <= i < children@.len() && children@[i].0 == k;
                            assert(sorted_keys(children@));
                            if c < j {
                            } else if c > j {
                                assert(children@[j as int].0 < children@[c].0);
                            }
                        }
                        return Some(&children[j].1);
                    }
                    j = j + 1;
                }
                None
            },
        }
    }
}

/// Why an insertion into a [`TrieMap`] was refused.
#[derive(Debug, Clone, Copy, PartialEq, Eq, Structural)]
pub enum TrieError {
    /// The key has no components.
    EmptyKey,
    /// A component before the last does not lead to an edge.
    NonEdgeInPath,
}

/// Whether a leaf can be put at `path` below `node`: every node on the way
/// to its parent is an edge, and when `create` is false every such edge
/// already exists.
pub open spec fn insertable<E, L>(node: TrieNode<E, L>, path: Seq<usize>, create: bool) -> bool
    decreases path.len(),
{
    match node {
        TrieNode::Leaf { .. } => false,
        TrieNode::Edge { children, .. } => if path.len() <= 1 {
            true
        } else {
            match child_index(children@, path[0]) {
                Some(i) => insertable(children@[i].1, path.drop_first(), create),
                None => create,
            }
        },
    }
}

/// Weight of a node that may be absent.
pub open spec fn weight_of<E, L>(n: Option<TrieNode<E, L>>) -> nat {
    match n {
        Some(x) => weight(x),
        None => 0,
    }
}

proof fn lemma_sum_weights_update<E, L>(s: Seq<(usize, TrieNode<E, L>)>, i: int, x: (usize, TrieNode<E, L>))
    requires
        0 <= i < s.len(),
    ensures
        sum_weights(s.update(i, x)) + weight(s[i].1) == sum_weights(s) + weight(x.1),
    decreases s.len(),
{
    if i == s.len() - 1 {
        assert(s.update(i, x).drop_last() =~= s.drop_last());
    } else {
        assert(s.update(i, x).drop_last() =~= s.drop_last().update(i, x));
        lemma_sum_weights_update(s.drop_last(), i, x);
    }
}

proof fn lemma_sum_weights_insert<E, L>(s: Seq<(usize, TrieNode<E, L>)>, i: int, x: (usize, TrieNode<E, L>))
    requires
        0 <= i <= s.len(),
    ensures
        sum_weights(s.insert(i, x)) == sum_weights(s) + weight(x.1),
    decreases s.len(),
{
    if i == s.len() {
        assert(s.insert(i, x).drop_last() =~= s);
    } else {
        assert(s.insert(i, x).drop_last() =~= s.drop_last().insert(i, x));
        lemma_sum_weights_insert(s.drop_last(), i, x);
    }
}

proof fn lemma_sum_weights_bound<E, L>(s: Seq<(usize, TrieNode<E, L>)>, i: int)
    requires
        0 <= i < s.len(),
    ensures
        weight(s[i].1) <= sum_weights(s),
    decreases s.len(),
{
    if i < s.len() - 1 {
        lemma_sum_weights_bound(s.drop_last(), i);
    }
}

proof fn lemma_children_after_put<E, L>(
    old_children: Seq<(usize, TrieNode<E, L>)>,
    children: Seq<(usize, TrieNode<E, L>)>,
    idx: int,
    k: usize,
    new_child: TrieNode<E, L>,
    found: bool,
)
    requires
        sorted_keys(old_children),
        forall|i: int| 0 <= i < old_children.len() ==> (#[trigger] old_children[i]).1.wf(),
        new_child.wf(),
        0 <= idx <= old_children.len(),
        forall|m: int| 0 <= m < idx ==> old_children[m].0 < k,
        found ==> idx < old_children.len() && old_children[idx].0 == k,
        !found ==> forall|m: int| idx <= m < old_children.len() ==> old_children[m].0 > k,
        found ==> children == old_children.update(idx, (k, new_child)),
        !found ==> children == old_children.insert(idx, (k, new_child)),
    ensures
        sorted_keys(children),
        forall|i: int| 0 <= i < children.len() ==> (#[trigger] children[i]).1.wf(),
{
    assert forall|a: int, b: int| 0 <= a < b < children.len() implies children[a].0 < children[b].0 by {
        if found {
            if a != idx && b != idx {
                assert(children[a] == old_children[a]);
            }
            if a != idx && b == idx {
                assert(children[a] == old_children[a]);
            }
            if a == idx && b != idx {
                assert(old_children[idx].0 < old_children[b].0);
            }
        } else {
            if a < idx && b > idx {
                assert(children[b] == old_children[b - 1]);
            } else if a > idx {
                assert(children[b] == old_children[b - 1]);
                assert(children[a] == old_children[a - 1]);
            } else if a == idx {
                assert(children[b] == old_children[b - 1]);
            }
        }
    }
    assert forall|i: int| 0 <= i < children.len() implies (#[trigger] children[i]).1.wf() by {
        if i != idx {
            if found || i < idx {
                assert(children[i] == old_children[i]);
            } else {
                assert(children[i] == old_children[i - 1]);
            }
        }
    }
}

/// Position of component `k` among ordered children: the index of the first
/// child whose component is not below `k`, and whether it is `k` itself.
pub fn search_children<E, L>(children: &Vec<(usize, TrieNode<E, L>)>, k: usize) -> (r: (usize, bool))
    requires
        sorted_keys(children@),
    ensures
        r.0 <= children@.len(),
        forall|m: int| 0 <= m < r.0 ==> children@[m].0 < k,
        r.1 ==> r.0 < children@.len() && children@[r.0 as int].0 == k && child_index(children@, k) == Some(r.0 as int),
        !r.1 ==> (forall|m: int| r.0 <= m < children@.len() ==> children@[m].0 > k) && child_index(children@, k) is None,
{
    let mut j: usize = 0;
    while j < children.len() && children[j].0 < k
        invariant
            j <= children@.len(),
            forall|m: int| 0 <= m < j ==> children@[m].0 < k,
        decreases children@.len() - j,
    {
        j = j + 1;
    }
    let found = j < children.len() && children[j].0 == k;
    proof {
        if found {
            let c = choose|i: int| 0 <= i < children@.len() && children@[i].0 == k;
            if c < j {
            } else if c > j {
                assert(children@[j as int].0 < children@[c].0);
            }
        } else {
            assert forall|m: int| j <= m < children@.len() implies children@[m].0 > k by {
                if m > j {
                    assert(children@[j as int].0 < children@[m].0);
                }
            }
        }
    }
    (j, found)
}

/// Whether a leaf can be put at `path[depth..]` below `node`.
fn can_insert<E, L>(node: &TrieNode<E, L>, path: &Vec<usize>, depth: usize, create: bool) -> (r: bool)
    requires
        node.wf(),
        depth < path@.len(),
    ensures
        r == insertable(*node, path@.subrange(depth as int, path@.len() as int), create),
    decreases path@.len() - depth,
{
    let ghost sub = path@.subrange(depth as int, path@.len() as int);
    if node.is_leaf() {
        return false;
    }
    if depth == path.len() - 1 {
        return true;
    }
    proof {
        assert(sub.drop_first() =~= path@.subrange(depth + 1, path@.len() as int));
    }
    match node.child(path[depth]) {
        Some(c) => can_insert(c, path, depth + 1, create),
        None => create,
    }
}

/// Puts a leaf holding `data` at `path[depth..]` below `node`, creating
/// missing edges, and returns the new node with what was there before.
#[verifier::rlimit(40)]
fn insert_node<E: Default, L>(
    node: TrieNode<E, L>,
    path: &Vec<usize>,
    depth: usize,
    data: L,
    create: bool,
) -> (r: (TrieNode<E, L>, Option<TrieNode<E, L>>))
    requires
        node.wf(),
        depth < path@.len(),
        insertable(node, path@.subrange(depth as int, path@.len() as int), create),
        weight(node) < usize::MAX,
    ensures
        r.0.wf(),
        r.1 == node.node_at(path@.subrange(depth as int, path@.len() as int)),
        r.0.node_at(path@.subrange(depth as int, path@.len() as int)) == Some(
            TrieNode::<E, L>::Leaf { data },
        ),
        weight(r.0) + weight_of(r.1) == weight(node) + 1,
        forall|q: Seq<usize>|
            diverges(path@.subrange(depth as int, path@.len() as int), q) ==> #[trigger] r.0.node_at(q)
                == node.node_at(q),
        node matches TrieNode::Edge { data: d0, .. } ==> (r.0 matches TrieNode::Edge { data: d1, .. } && d1 == d0),
        forall|m: int|
            0 < m < path@.len() - depth && node.node_at(path@.subrange(depth as int, path@.len() as int).subrange(0, m)) is None
                ==> created_edge(#[trigger] r.0.node_at(path@.subrange(depth as int, path@.len() as int).subrange(0, m))),
    decreases path@.len() - depth,
{
    let ghost sub = path@.subrange(depth as int, path@.len() as int);
    match node {
        TrieNode::Leaf { .. } => {
            proof {
                assert(false);
            }
            (node, None)
        },
        TrieNode::Edge { mut children, data: edata, count } => {
            let ghost old_children = children@;
            let k = path[depth];
            let (idx, found) = search_children(&children, k);
            let last = depth == path.len() - 1;
            proof {
                if !last {
                    assert(sub.drop_first() =~= path@.subrange(depth + 1, path@.len() as int));
                }
            }
            let (new_child, prev, old_w) = if found {
                let (_, child) = children.remove(idx);
                let cw = child.leaf_count();
                proof {
                    assert(child == old_children[idx as int].1);
                    lemma_sum_weights_bound(old_children, idx as int);
                    assert(old_children[idx as int].1.wf());
                }
                if last {
                    (TrieNode::Leaf { data }, Some(child), cw)
                } else {
                    let (nc, prev) = insert_node(child, path, depth + 1, data, create);
                    (nc, prev, cw)
                }
            } else {
                let fresh_data = E::default();
                let fresh: TrieNode<E, L> = TrieNode::Edge { children: Vec::new(), data: fresh_data, count: 0 };
                if last {
                    (TrieNode::Leaf { data }, None, 0)
                } else {
                    proof {
                        assert(fresh.node_at(sub.drop_first()) is None) by {
                            let fc = Seq::<(usize, TrieNode<E, L>)>::empty();
                            assert(child_index(fc, sub.drop_first()[0]) is None);
                        }
                    }
                    let ghost fresh_g = fresh;
                    let (nc, prev) = insert_node(fresh, path, depth + 1, data, create);
                    proof {
                        let sub2 = path@.subrange(depth + 1, path@.len() as int);
                        assert(created_edge(Some(nc)));
                        assert forall|m: int| 0 < m < sub2.len() implies fresh_g.node_at(#[trigger] sub2.subrange(0, m)) is None by {
                            let fc = Seq::<(usize, TrieNode<E, L>)>::empty();
                            assert(child_index(fc, sub2.subrange(0, m)[0]) is None);
                        }
                    }
                    (nc, prev, 0)
                }
            };
            let new_w = new_child.leaf_count();
            children.insert(idx, (k, new_child));
            proof {
                if found {
                    assert(children@ =~= old_children.update(idx as int, (k, new_child)));
                    lemma_sum_weights_update(old_children, idx as int, (k, new_child));
                } else {
                    assert(children@ =~= old_children.insert(idx as int, (k, new_child)));
                    lemma_sum_weights_insert(old_children, idx as int, (k, new_child));
                }
                assert(child_index(children@, k) == Some(idx as int)) by {
                    assert(children@[idx as int].0 == k);
                }
            }
            let new_count = count - old_w + new_w;
            proof {
                lemma_children_after_put(old_children, children@, idx as int, k, new_child, found);
                assert(new_count == sum_weights(children@));
                assert(sub[0] == k);
                assert(children@[idx as int].1 == new_child);
                if last {
                    assert(sub.drop_first().len() == 0);
                    assert(new_child.node_at(sub.drop_first()) == Some(new_child));
                    if found {
                        assert(old_children[idx as int].1.node_at(sub.drop_first()) == Some(old_children[idx as int].1));
                    }
                } else {
                    assert(sub.drop_first() =~= path@.subrange(depth + 1, path@.len() as int));
                }
            }
            let ghost new_children = children@;
            let result = TrieNode::Edge { children, data: edata, count: new_count };
            proof {
                let sub2 = sub.drop_first();
                assert forall|m: int| 0 < m < sub.len() && node.node_at(sub.subrange(0, m)) is None implies created_edge(#[trigger] result.node_at(sub.subrange(0, m))) by {
                    let pre = sub.subrange(0, m);
                    assert(pre[0] == k);
                    assert(pre.drop_first() =~= sub2.subrange(0, m - 1));
                    assert(node matches TrieNode::Edge { children: c, .. } && c@ == old_children);
                    assert(result.node_at(pre) == new_child.node_at(sub2.subrange(0, m - 1)));
                    assert(!last);
                    if found {
                        assert(node.node_at(pre) == old_children[idx as int].1.node_at(sub2.subrange(0, m - 1)));
                        if m == 1 {
                            assert(sub2.subrange(0, 0).len() == 0);
                        }
                    } else {
                        if m == 1 {
                            assert(sub2.subrange(0, 0).len() == 0);
                            assert(new_child.node_at(sub2.subrange(0, 0)) == Some(new_child));
                        }
                    }
                }
                assert forall|q: Seq<usize>| diverges(sub, q) implies #[trigger] result.node_at(q) == node.node_at(q) by {
                    let i = choose|i: int| 0 <= i < sub.len() && i < q.len() && sub[i] != q[i];
                    assert(q.len() > 0);
                    assert(result matches TrieNode::Edge { children: c, .. } && c@ == new_children);
                    assert(node matches TrieNode::Edge { children: c, .. } && c@ == old_children);
                    if q[0] != k {
                        lemma_child_index_other(old_children, new_children, idx as int, k, new_child, found, q[0]);
                        match child_index(old_children, q[0]) {
                            Some(oi) => {
                                let j = child_index(new_children, q[0])->0;
                                assert(new_children[j] == old_children[oi]);
                                assert(result.node_at(q) == new_children[j].1.node_at(q.drop_first()));
                                assert(node.node_at(q) == old_children[oi].1.node_at(q.drop_first()));
                            },
                            None => {
                                assert(result.node_at(q) is None);
                                assert(node.node_at(q) is None);
                            },
                        }
                    } else {
                        assert(child_index(new_children, k) == Some(idx as int));
                        assert(result.node_at(q) == new_child.node_at(q.drop_first()));
                        assert(i >= 1);
                        assert(!last);
                        assert(diverges(sub.drop_first(), q.drop_first())) by {
                            assert(sub.drop_first()[i - 1] != q.drop_first()[i - 1]);
                        }
                        if !found {
                            let fc = Seq::<(usize, TrieNode<E, L>)>::empty();
                            assert(child_index(fc, q.drop_first()[0]) is None);
                        }
                    }
                }
            }
            (result, prev)
        },
    }
}

/// Whether `n` is an edge that insertion created: its data is a default value.
pub open spec fn created_edge<E: Default, L>(n: Option<TrieNode<E, L>>) -> bool {
    n matches Some(TrieNode::Edge { data, .. }) && call_ensures(E::default, (), data)
}

/// Whether two paths part ways: neither is a prefix of the other.
pub open spec fn diverges(p: Seq<usize>, q: Seq<usize>) -> bool {
    exists|i: int| 0 <= i < p.len() && i < q.len() && p[i] != q[i]
}

proof fn lemma_child_index_other<E, L>(
    old_children: Seq<(usize, TrieNode<E, L>)>,
    children: Seq<(usize, TrieNode<E, L>)>,
    idx: int,
    k: usize,
    new_child: TrieNode<E, L>,
    found: bool,
    key: usize,
)
    requires
        sorted_keys(old_children),
        sorted_keys(children),
        key != k,
        0 <= idx <= old_children.len(),
        found ==> idx < old_children.len() && old_children[idx].0 == k,
        found ==> children == old_children.update(idx, (k, new_child)),
        !found ==> children == old_children.insert(idx, (k, new_child)),
    ensures
        match child_index(old_children, key) {
            Some(i) => child_index(children, key) matches Some(j) && children[j] == old_children[i],
            None => child_index(children, key) is None,
        },
{
    if exists|i: int| 0 <= i < old_children.len() && old_children[i].0 == key {
        let i = choose|i: int| 0 <= i < old_children.len() && old_children[i].0 == key;
        let j = if found || i < idx { i } else { i + 1 };
        assert(children[j] == old_children[i]);
        let c = choose|c: int| 0 <= c < children.len() && children[c].0 == key;
        if c < j {
            assert(children[c].0 < children[j].0);
        } else if c > j {
            assert(children[j].0 < children[c].0);
        }
    } else {
        if exists|j: int| 0 <= j < children.len() && children[j].0 == key {
            let j = choose|j: int| 0 <= j < children.len() && children[j].0 == key;
            if found {
                assert(old_children[j].0 == key);
            } else if j < idx {
                assert(old_children[j].0 == key);
            } else {
                assert(j != idx);
                assert(old_children[j - 1].0 == key);
            }
        }
    }
}

/// One node of a trie as it is printed: its depth below the root, the
/// component it hangs under, and whether it is a leaf.
#[derive(Debug, Clone, Copy, PartialEq, Eq, Structural)]
pub struct PrettyTrieNode {
    pub depth: usize,
    pub name: usize,
    pub leaf: bool,
}

/// A depth as printed: depths past the largest `usize` print as the largest.
pub open spec fn clamp_depth(d: nat) -> usize {
    if d > usize::MAX {
        usize::MAX
    } else {
        d as usize
    }
}

/// Appends the printed form of the nodes below `node` to `out`.
fn pretty_node<E, L>(node: &TrieNode<E, L>, depth: usize, Ghost(d): Ghost<nat>, out: &mut Vec<PrettyTrieNode>)
    requires
        depth == clamp_depth(d),
    ensures
        final(out)@ == old(out)@ + pretty_spec(*node, d),
    decreases node,
{
    match node {
        TrieNode::Leaf { .. } => {
            assert(old(out)@ + pretty_spec(*node, d) =~= old(out)@);
        },
        TrieNode::Edge { children, .. } => {
            let ghost start = out@;
            let next = if depth == usize::MAX {
                depth
            } else {
                depth + 1
            };
            let mut i: usize = 0;
            proof {
                assert(children@.subrange(0, 0) =~= Seq::<(usize, TrieNode<E, L>)>::empty());
                assert(out@ =~= start + pretty_children_spec(children@.subrange(0, 0), d));
            }
            while i < children.len()
                invariant
                    i <= children@.len(),
                    next == clamp_depth(d + 1),
                    out@ == start + pretty_children_spec(children@.subrange(0, i as int), d),
                    depth == clamp_depth(d),
                    *node matches TrieNode::Edge { children: c, .. } && c == *children,
                decreases children@.len() - i,
            {
                let ghost before = out@;
                let (name, child) = (children[i].0, &children[i].1);
                out.push(PrettyTrieNode { depth, name, leaf: child.is_leaf() });
                proof {
                    assert(decreases_to!(*node => children@[i as int].1));
                }
                pretty_node(child, next, Ghost(d + 1), out);
                proof {
                    let sub = children@.subrange(0, i + 1);
                    assert(sub.drop_last() =~= children@.subrange(0, i as int));
                    assert(sub.last() == children@[i as int]);
                    assert(out@ =~= start + pretty_children_spec(sub, d));
                }
                i = i + 1;
            }
            proof {
                assert(children@.subrange(0, i as int) =~= children@);
            }
        },
    }
}

/// The nodes below `node`, parents before their children and siblings in
/// the order of their components.
pub open spec fn pretty_spec<E, L>(node: TrieNode<E, L>, depth: nat) -> Seq<PrettyTrieNode>
    decreases node,
{
    match node {
        TrieNode::Leaf { .. } => Seq::empty(),
        TrieNode::Edge { children, .. } => pretty_children_spec(children@, depth),
    }
}

/// The printed form of a sequence of children at `depth`.
pub open spec fn pretty_children_spec<E, L>(children: Seq<(usize, TrieNode<E, L>)>, depth: nat) -> Seq<PrettyTrieNode>
    decreases children,
{
    if children.len() == 0 {
        Seq::empty()
    } else {
        let last = children.last();
        pretty_children_spec(children.drop_last(), depth) + seq![
            PrettyTrieNode { depth: clamp_depth(depth), name: last.0, leaf: last.1 is Leaf },
        ] + pretty_spec(last.1, depth + 1)
    }
}

/// A prefix trie that supports map-like operations, with data on every edge
/// and on every leaf.
#[derive(Debug)]
pub struct TrieMap<E, L> {
    root: TrieNode<E, L>,
}

impl<E, L> TrieMap<E, L> {
    pub closed spec fn root_node(&self) -> TrieNode<E, L> {
        self.root
    }

    pub open spec fn wf(&self) -> bool {
        self.root_node().wf()
    }

    /// The node at `path`.
    pub open spec fn node_at(&self, path: Seq<usize>) -> Option<TrieNode<E, L>> {
        self.root_node().node_at(path)
    }

    /// Number of leaves in the trie.
    pub open spec fn len(&self) -> nat {
        weight(self.root_node())
    }

    /// A trie with no leaves whose root edge holds `data`.
    pub fn new_with_root(data: E) -> (r: TrieMap<E, L>)
        ensures
            r.wf(),
            r.root_node() matches TrieNode::Edge { children, data: d, count } && children@.len() == 0 && d == data && count == 0,
    {
        TrieMap { root: TrieNode::Edge { children: Vec::new(), data, count: 0 } }
    }

    /// A trie whose root is `node`.
    pub fn from_node(node: TrieNode<E, L>) -> (r: TrieMap<E, L>)
        ensures
            r.root_node() == node,
    {
        TrieMap { root: node }
    }

    /// The root node.
    pub fn root(&self) -> (r: &TrieNode<E, L>)
        ensures
            *r == self.root_node(),
    {
        &self.root
    }

    /// Number of leaves in the trie.
    pub fn leaf_count(&self) -> (r: usize)
        ensures
            r == self.len(),
    {
        self.root.leaf_count()
    }

    /// The node at `path`, if there is one.
    pub fn get<K: TrieKey>(&self, path: &K) -> (r: Option<&TrieNode<E, L>>)
        requires
            self.wf(),
        ensures
            r is Some <==> self.node_at(path.components()) is Some,
            r matches Some(n) ==> self.node_at(path.components()) == Some(*n),
    {
        let comps = path.as_components();
        let mut node: &TrieNode<E, L> = &self.root;
        let mut i: usize = 0;
        proof {
            assert(comps@.subrange(0, comps@.len() as int) =~= comps@);
        }
        while i < comps.len()
            invariant
                i <= comps@.len(),
                comps@ == path.components(),
                node.wf(),
                self.node_at(comps@) == node.node_at(comps@.subrange(i as int, comps@.len() as int)),
            decreases comps@.len() - i,
        {
            let ghost sub = comps@.subrange(i as int, comps@.len() as int);
            proof {
                assert(sub.drop_first() =~= comps@.subrange(i + 1, comps@.len() as int));
            }
            match node.child(comps[i]) {
                Some(c) => {
                    node = c;
                },
                None => {
                    return None;
                },
            }
            i = i + 1;
        }
        proof {
            assert(comps@.subrange(i as int, comps@.len() as int).len() == 0);
        }
        Some(node)
    }

    /// Every node below the root, parents before their children and
    /// siblings in the order of their components, for printing.
    pub fn pretty(&self) -> (r: Vec<PrettyTrieNode>)
        ensures
            r@ == pretty_spec(self.root_node(), 0),
    {
        let mut out: Vec<PrettyTrieNode> = Vec::new();
        pretty_node(&self.root, 0, Ghost(0nat), &mut out);
        proof {
            assert(out@ =~= pretty_spec(self.root_node(), 0));
        }
        out
    }

    /// The leaf data at `path`, if the path exists and leads to a leaf.
    pub fn get_leaf<K: TrieKey>(&self, path: &K) -> (r: Option<&L>)
        requires
            self.wf(),
        ensures
            r is Some <==> self.root_node().leaf_at(path.components()) is Some,
            r matches Some(d) ==> self.root_node().leaf_at(path.components()) == Some(*d),
    {
        match self.get(path) {
            Some(TrieNode::Leaf { data }) => Some(data),
            _ => None,
        }
    }
}

impl<E: Default, L> TrieMap<E, L> {
    /// A trie with no leaves whose root edge holds the default data.
    pub fn new() -> (r: TrieMap<E, L>)
        ensures
            r.wf(),
            r.len() == 0,
            r.root_node() matches TrieNode::Edge { children, .. } && children@.len() == 0,
    {
        TrieMap::new_with_root(E::default())
    }

    fn insert_with<K: TrieKey>(&mut self, path: &K, data: L, create: bool) -> (r: Result<
        Option<TrieNode<E, L>>,
        TrieError,
    >)
        requires
            old(self).wf(),
            old(self).len() < usize::MAX,
        ensures
            final(self).wf(),
            path.components().len() == 0 <==> r == Err::<Option<TrieNode<E, L>>, TrieError>(TrieError::EmptyKey),
            path.components().len() > 0 && !insertable(old(self).root_node(), path.components(), create)
                <==> r == Err::<Option<TrieNode<E, L>>, TrieError>(TrieError::NonEdgeInPath),
            r is Err ==> *final(self) == *old(self),
            r matches Ok(prev) ==> {
                &&& prev == old(self).node_at(path.components())
                &&& final(self).root_node().leaf_at(path.components()) == Some(data)
                &&& final(self).len() + weight_of(prev) == old(self).len() + 1
                &&& forall|q: Seq<usize>|
                    diverges(path.components(), q) ==> #[trigger] final(self).node_at(q) == old(self).node_at(q)
                &&& forall|m: int|
                    0 < m < path.components().len() && old(self).node_at(path.components().subrange(0, m)) is None
                        ==> created_edge(#[trigger] final(self).node_at(path.components().subrange(0, m)))
            },
    {
        let comps = path.as_components();
        if comps.len() == 0 {
            return Err(TrieError::EmptyKey);
        }
        proof {
            assert(comps@.subrange(0, comps@.len() as int) =~= comps@);
        }
        if !can_insert(&self.root, &comps, 0, create) {
            return Err(TrieError::NonEdgeInPath);
        }
        let mut root: TrieNode<E, L> = TrieNode::Edge { children: Vec::new(), data: E::default(), count: 0 };
        std::mem::swap(&mut self.root, &mut root);
        let (new_root, prev) = insert_node(root, &comps, 0, data, create);
        self.root = new_root;
        Ok(prev)
    }
}

impl<E: Default, L> TrieMap<E, L> {
    /// Puts `data` at `path`, creating the edges on the way; returns what was
    /// at `path` before.
    ///
    /// Fails on an empty key, and where a component before the last leads to
    /// a leaf; the trie is then unchanged.
    pub fn insert_leaf<K: TrieKey>(&mut self, path: &K, data: L) -> (r: Result<
        Option<TrieNode<E, L>>,
        TrieError,
    >)
        requires
            old(self).wf(),
            old(self).len() < usize::MAX,
        ensures
            final(self).wf(),
            path.components().len() == 0 <==> r == Err::<Option<TrieNode<E, L>>, TrieError>(TrieError::EmptyKey),
            path.components().len() > 0 && !insertable(old(self).root_node(), path.components(), true)
                <==> r == Err::<Option<TrieNode<E, L>>, TrieError>(TrieError::NonEdgeInPath),
            r is Err ==> *final(self) == *old(self),
            r matches Ok(prev) ==> {
                &&& prev == old(self).node_at(path.components())
                &&& final(self).root_node().leaf_at(path.components()) == Some(data)
                &&& final(self).len() + weight_of(prev) == old(self).len() + 1
                &&& forall|q: Seq<usize>|
                    diverges(path.components(), q) ==> #[trigger] final(self).node_at(q) == old(self).node_at(q)
                &&& forall|m: int|
                    0 < m < path.components().len() && old(self).node_at(path.components().subrange(0, m)) is None
                        ==> created_edge(#[trigger] final(self).node_at(path.components().subrange(0, m)))
            },
    {
        self.insert_with(path, data, true)
    }

    /// Puts `data` at `path`, whose edges must all exist; returns what was at
    /// `path` before.
    ///
    /// Fails on an empty key, and where a component before the last is
    /// missing or leads to a leaf; the trie is then unchanged.
    pub fn insert<K: TrieKey>(&mut self, path: &K, data: L) -> (r: Result<
        Option<TrieNode<E, L>>,
        TrieError,
    >)
        requires
            old(self).wf(),
            old(self).len() < usize::MAX,
        ensures
            final(self).wf(),
            path.components().len() == 0 <==> r == Err::<Option<TrieNode<E, L>>, TrieError>(TrieError::EmptyKey),
            path.components().len() > 0 && !insertable(old(self).root_node(), path.components(), false)
                <==> r == Err::<Option<TrieNode<E, L>>, TrieError>(TrieError::NonEdgeInPath),
            r is Err ==> *final(self) == *old(self),
            r matches Ok(prev) ==> {
                &&& prev == old(self).node_at(path.components())
                &&& final(self).root_node().leaf_at(path.components()) == Some(data)
                &&& final(self).len() + weight_of(prev) == old(self).len() + 1
                &&& forall|q: Seq<usize>|
                    diverges(path.components(), q) ==> #[trigger] final(self).node_at(q) == old(self).node_at(q)
                &&& forall|m: int|
                    0 < m < path.components().len() && old(self).node_at(path.components().subrange(0, m)) is None
                        ==> created_edge(#[trigger] final(self).node_at(path.components().subrange(0, m)))
            },
    {
        self.insert_with(path, data, false)
    }
}

} // verus!
