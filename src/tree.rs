//! Recursive enumeration of a directory into a [`MetadataTree`].

use vstd::prelude::*;
use vstd::string::*;
use crate::error::Error;
use crate::ignore::{ignored_by, is_ignored, IgnoreSet};
use crate::interner::{intern, interned_count, interned_strings, lookup_key, new_interner, resolve};
use crate::filesystem::{Block, BlockPool};
use crate::filesystem::{PermitEvent, PermitLedger};
use crate::handle::{close_handle, open_directory, open_file, read_block_size, DirectoryDetails, FileDetails, HandleLocation, ReadIterator};
use crate::platform::{OpenOptions, Platform, PlatformPath};
use crate::ignore::glob_set_matches;
use crate::trie::{child_index, sorted_keys, sum_weights, InternedPath, TrieMap, TrieNode};
use crate::types::{DirectoryEntry, FileStat, FileType};

verus! {

/// Longest path the walk descends to; deeper paths are invalid data.
pub const MAX_PATH_LEN: usize = 4096;

/// Most names the interner of one walk holds.
pub const MAX_NAMES: usize = 0xffff_fff0;

/// The path of entry `name` in directory `dir`.
pub open spec fn join_spec(dir: Seq<char>, name: Seq<char>) -> Seq<char> {
    dir + seq!['/'] + name
}

pub fn join_path(dir: &String, name: &String) -> (r: String)
    ensures
        r@ == join_spec(dir@, name@),
{
    let mut s = dir.clone();
    let sep = "/";
    proof {
        reveal_strlit("/");
    }
    s.append(sep);
    s.append(name.as_str());
    s
}

/// What the walk does with one entry of a directory.
#[derive(Debug, Clone, PartialEq, Eq)]
pub enum EntryAction {
    /// Leave it out of the tree.
    Skip,
    /// Stat the file at this path.
    File(String),
    /// Walk the directory at this path.
    Directory(String),
}

/// Whether a name is one of the entries `.` and `..`.
pub open spec fn is_dot_entry(name: Seq<char>) -> bool {
    name == seq!['.'] || name == seq!['.', '.']
}

/// The walk's decision for an entry of directory `dir`: the entries `.` and
/// `..`, symbolic links and ignored paths are skipped; files and
/// directories are visited at their joined path.
pub open spec fn entry_action_spec(dir: Seq<char>, entry: DirectoryEntry, ignore: Option<&IgnoreSet>) -> Option<(FileType, Seq<char>)> {
    let path = join_spec(dir, entry.name@);
    if is_dot_entry(entry.name@) || entry.kind == FileType::Symlink || is_ignored(ignore, path) {
        None
    } else {
        Some((entry.kind, path))
    }
}

/// Decides what the walk does with an entry of directory `dir`.
pub fn classify_entry(dir: &String, entry: &DirectoryEntry, ignore: Option<&IgnoreSet>) -> (r: EntryAction)
    ensures
        match entry_action_spec(dir@, *entry, ignore) {
            None => r == EntryAction::Skip,
            Some((FileType::File, p)) => r matches EntryAction::File(q) && q@ == p,
            Some((_, p)) => r matches EntryAction::Directory(q) && q@ == p,
        },
{
    let dot = String::from_str(".");
    let dotdot = String::from_str("..");
    proof {
        reveal_strlit(".");
        reveal_strlit("..");
        assert(dot@ =~= seq!['.']);
        assert(dotdot@ =~= seq!['.', '.']);
    }
    if entry.name == dot || entry.name == dotdot {
        return EntryAction::Skip;
    }
    if entry.kind == FileType::Symlink {
        return EntryAction::Skip;
    }
    let path = join_path(dir, &entry.name);
    if ignored_by(ignore, path.as_str()) {
        return EntryAction::Skip;
    }
    if entry.kind == FileType::File {
        EntryAction::File(path)
    } else {
        EntryAction::Directory(path)
    }
}

/// `children` with `x` put at the place its component orders it to,
/// replacing a child with the same component.
pub open spec fn put_spec<N>(children: Seq<(usize, N)>, x: (usize, N)) -> Seq<(usize, N)>
    decreases children.len(),
{
    if children.len() == 0 {
        seq![x]
    } else if x.0 < children[0].0 {
        seq![x] + children
    } else if x.0 == children[0].0 {
        seq![x] + children.drop_first()
    } else {
        seq![children[0]] + put_spec(children.drop_first(), x)
    }
}

/// Every child of `children` put in turn, starting from `start`.
pub open spec fn put_all<N>(start: Seq<(usize, N)>, xs: Seq<(usize, N)>) -> Seq<(usize, N)>
    decreases xs.len(),
{
    if xs.len() == 0 {
        start
    } else {
        put_all(put_spec(start, xs[0]), xs.drop_first())
    }
}

proof fn lemma_put_spec_index<N>(s: Seq<(usize, N)>, x: (usize, N), idx: int, found: bool)
    requires
        0 <= idx <= s.len(),
        forall|m: int| 0 <= m < idx ==> s[m].0 < x.0,
        found ==> idx < s.len() && s[idx].0 == x.0,
        !found ==> forall|m: int| idx <= m < s.len() ==> s[m].0 > x.0,
    ensures
        found ==> put_spec(s, x) == s.update(idx, x),
        !found ==> put_spec(s, x) == s.insert(idx, x),
    decreases s.len(),
{
    if s.len() == 0 {
        assert(s.insert(idx, x) =~= seq![x]);
    } else if idx == 0 {
        if found {
            assert(s.update(0, x) =~= seq![x] + s.drop_first());
        } else {
            assert(s.insert(0, x) =~= seq![x] + s);
        }
    } else {
        let t = s.drop_first();
        assert forall|m: int| 0 <= m < idx - 1 implies t[m].0 < x.0 by {
            assert(t[m] == s[m + 1]);
        }
        if !found {
            assert forall|m: int| idx - 1 <= m < t.len() implies t[m].0 > x.0 by {
                assert(t[m] == s[m + 1]);
            }
        }
        lemma_put_spec_index(t, x, idx - 1, found);
        if found {
            assert(s.update(idx, x) =~= seq![s[0]] + t.update(idx - 1, x));
        } else {
            assert(s.insert(idx, x) =~= seq![s[0]] + t.insert(idx - 1, x));
        }
    }
}

/// Puts `node` under component `k` among ordered children.
pub fn put_child<E, L>(children: &mut Vec<(usize, TrieNode<E, L>)>, k: usize, node: TrieNode<E, L>)
    requires
        sorted_keys(old(children)@),
    ensures
        final(children)@ == put_spec(old(children)@, (k, node)),
{
    let (idx, found) = crate::trie::search_children(children, k);
    proof {
        lemma_put_spec_index(children@, (k, node), idx as int, found);
    }
    if found {
        children.set(idx, (k, node));
    } else {
        children.insert(idx, (k, node));
    }
}

proof fn lemma_put_spec_sorted<N>(s: Seq<(usize, N)>, x: (usize, N))
    requires
        forall|i: int, j: int| 0 <= i < j < s.len() ==> s[i].0 < s[j].0,
    ensures
        forall|i: int, j: int| 0 <= i < j < put_spec(s, x).len() ==> put_spec(s, x)[i].0 < put_spec(s, x)[j].0,
        forall|e: (usize, N)| #[trigger] put_spec(s, x).contains(e) <==> (e == x || (s.contains(e) && e.0 != x.0)),
    decreases s.len(),
{
    let r = put_spec(s, x);
    if s.len() == 0 {
        assert forall|e: (usize, N)| r.contains(e) <==> (e == x || (s.contains(e) && e.0 != x.0)) by {
            if r.contains(e) {
                let i = choose|i: int| 0 <= i < r.len() && r[i] == e;
                assert(i == 0);
            }
            if e == x {
                assert(r[0] == x);
            }
        }
    } else if x.0 < s[0].0 {
        assert forall|e: (usize, N)| r.contains(e) <==> (e == x || (s.contains(e) && e.0 != x.0)) by {
            if r.contains(e) {
                let i = choose|i: int| 0 <= i < r.len() && r[i] == e;
                if i > 0 {
                    assert(r[i] == s[i - 1]);
                    if i - 1 > 0 {
                        assert(s[0].0 < s[i - 1].0);
                    }
                }
            }
            if e == x {
                assert(r[0] == x);
            } else if s.contains(e) && e.0 != x.0 {
                let i = choose|i: int| 0 <= i < s.len() && s[i] == e;
                assert(r[i + 1] == e);
            }
        }
    } else if x.0 == s[0].0 {
        assert forall|e: (usize, N)| r.contains(e) <==> (e == x || (s.contains(e) && e.0 != x.0)) by {
            if r.contains(e) {
                let i = choose|i: int| 0 <= i < r.len() && r[i] == e;
                if i > 0 {
                    assert(r[i] == s[i]);
                    assert(s[0].0 < s[i].0);
                }
            }
            if e == x {
                assert(r[0] == x);
            } else if s.contains(e) && e.0 != x.0 {
                let i = choose|i: int| 0 <= i < s.len() && s[i] == e;
                assert(i != 0);
                assert(r[i] == e);
            }
        }
    } else {
        let t = s.drop_first();
        lemma_put_spec_sorted(t, x);
        let pt = put_spec(t, x);
        assert(r == seq![s[0]] + pt);
        assert forall|e: (usize, N)| r.contains(e) <==> (e == x || (s.contains(e) && e.0 != x.0)) by {
            if r.contains(e) {
                let i = choose|i: int| 0 <= i < r.len() && r[i] == e;
                if i > 0 {
                    assert(r[i] == pt[i - 1]);
                    assert(pt.contains(e));
                    if t.contains(e) {
                        let j = choose|j: int| 0 <= j < t.len() && t[j] == e;
                        assert(s[j + 1] == e);
                    }
                } else {
                    assert(s[0] == e);
                }
            }
            if e == x {
                assert(pt.contains(e));
                let j = choose|j: int| 0 <= j < pt.len() && pt[j] == e;
                assert(r[j + 1] == e);
            } else if s.contains(e) && e.0 != x.0 {
                let i = choose|i: int| 0 <= i < s.len() && s[i] == e;
                if i == 0 {
                    assert(r[0] == e);
                } else {
                    assert(t[i - 1] == e);
                    assert(t.contains(e));
                    assert(pt.contains(e));
                    let j = choose|j: int| 0 <= j < pt.len() && pt[j] == e;
                    assert(r[j + 1] == e);
                }
            }
        }
        assert forall|i: int, j: int| 0 <= i < j < r.len() implies r[i].0 < r[j].0 by {
            if i == 0 {
                assert(r[j] == pt[j - 1]);
                assert(pt.contains(pt[j - 1]));
                if pt[j - 1] == x {
                } else {
                    assert(t.contains(pt[j - 1]));
                    let m = choose|m: int| 0 <= m < t.len() && t[m] == pt[j - 1];
                    assert(s[m + 1] == t[m]);
                    assert(s[0].0 < s[m + 1].0);
                }
            } else {
                assert(r[i] == pt[i - 1]);
                assert(r[j] == pt[j - 1]);
            }
        }
    }
}

/// Children ordered strictly by component.
pub open spec fn ordered<N>(s: Seq<(usize, N)>) -> bool {
    forall|i: int, j: int| 0 <= i < j < s.len() ==> s[i].0 < s[j].0
}

/// No two children share a component.
pub open spec fn distinct_components<N>(s: Seq<(usize, N)>) -> bool {
    forall|i: int, j: int| 0 <= i < j < s.len() ==> s[i].0 != s[j].0
}

proof fn lemma_ordered_same_elements<N>(a: Seq<(usize, N)>, b: Seq<(usize, N)>)
    requires
        ordered(a),
        ordered(b),
        forall|e: (usize, N)| a.contains(e) <==> b.contains(e),
    ensures
        a == b,
    decreases a.len(),
{
    if a.len() == 0 {
        if b.len() > 0 {
            assert(b.contains(b[0]));
        }
        assert(a =~= b);
    } else {
        assert(a.contains(a[0]));
        let j = choose|j: int| 0 <= j < b.len() && b[j] == a[0];
        assert(b.contains(b[0]));
        let i = choose|i: int| 0 <= i < a.len() && a[i] == b[0];
        if j > 0 {
            assert(b[0].0 < b[j].0);
            if i > 0 {
                assert(a[0].0 < a[i].0);
            }
        }
        assert(b[0] == a[0]);
        let ta = a.drop_first();
        let tb = b.drop_first();
        assert forall|e: (usize, N)| ta.contains(e) <==> tb.contains(e) by {
            if ta.contains(e) {
                let k = choose|k: int| 0 <= k < ta.len() && ta[k] == e;
                assert(a[k + 1] == e);
                assert(a.contains(e));
                let m = choose|m: int| 0 <= m < b.len() && b[m] == e;
                assert(a[0].0 < a[k + 1].0);
                assert(m != 0);
                assert(tb[m - 1] == e);
            }
            if tb.contains(e) {
                let k = choose|k: int| 0 <= k < tb.len() && tb[k] == e;
                assert(b[k + 1] == e);
                assert(b.contains(e));
                let m = choose|m: int| 0 <= m < a.len() && a[m] == e;
                assert(b[0].0 < b[k + 1].0);
                assert(m != 0);
                assert(ta[m - 1] == e);
            }
        }
        lemma_ordered_same_elements(ta, tb);
        assert(a =~= seq![a[0]] + ta);
        assert(b =~= seq![b[0]] + tb);
    }
}

proof fn lemma_put_all<N>(start: Seq<(usize, N)>, xs: Seq<(usize, N)>)
    requires
        ordered(start),
        distinct_components(xs),
        forall|i: int, e: (usize, N)| 0 <= i < xs.len() && start.contains(e) ==> e.0 != xs[i].0,
    ensures
        ordered(put_all(start, xs)),
        forall|e: (usize, N)| #[trigger] put_all(start, xs).contains(e) <==> (start.contains(e) || xs.contains(e)),
    decreases xs.len(),
{
    if xs.len() > 0 {
        let x = xs[0];
        lemma_put_spec_sorted(start, x);
        let next = put_spec(start, x);
        let rest = xs.drop_first();
        assert forall|i: int, j: int| 0 <= i < j < rest.len() implies rest[i].0 != rest[j].0 by {
            assert(rest[i] == xs[i + 1]);
            assert(rest[j] == xs[j + 1]);
        }
        assert forall|i: int, e: (usize, N)| 0 <= i < rest.len() && next.contains(e) implies e.0 != rest[i].0 by {
            assert(rest[i] == xs[i + 1]);
            if e == x {
            } else {
                assert(start.contains(e));
            }
        }
        lemma_put_all(next, rest);
        assert forall|e: (usize, N)| #[trigger] put_all(start, xs).contains(e) <==> (start.contains(e) || xs.contains(e)) by {
            if start.contains(e) {
                assert(e.0 != x.0);
            }
            if xs.contains(e) && e != x {
                let k = choose|k: int| 0 <= k < xs.len() && xs[k] == e;
                assert(k != 0);
                assert(rest[k - 1] == e);
                assert(rest.contains(e));
            }
            if rest.contains(e) {
                let k = choose|k: int| 0 <= k < rest.len() && rest[k] == e;
                assert(xs[k + 1] == e);
                assert(xs.contains(e));
            }
            if e == x {
                assert(xs[0] == e);
                assert(xs.contains(e));
            }
        }
    }
}

/// The children a directory gets do not depend on the order its entries are
/// visited in: putting the same children, no two with the same component,
/// in any two orders gives the same ordered sequence.
pub proof fn lemma_children_independent_of_order<N>(xs: Seq<(usize, N)>, ys: Seq<(usize, N)>)
    requires
        distinct_components(xs),
        distinct_components(ys),
        forall|e: (usize, N)| xs.contains(e) <==> ys.contains(e),
    ensures
        put_all(Seq::empty(), xs) == put_all(Seq::empty(), ys),
        ordered(put_all(Seq::<(usize, N)>::empty(), xs)),
{
    lemma_put_all(Seq::<(usize, N)>::empty(), xs);
    lemma_put_all(Seq::<(usize, N)>::empty(), ys);
    lemma_ordered_same_elements(put_all(Seq::<(usize, N)>::empty(), xs), put_all(Seq::<(usize, N)>::empty(), ys));
}

/// An edge over ordered children that counts the leaves beneath them; fails
/// when the count does not fit a `usize`.
pub fn edge_of<L>(children: Vec<(usize, TrieNode<(), L>)>) -> (r: Result<TrieNode<(), L>, Error>)
    requires
        sorted_keys(children@),
        forall|i: int| 0 <= i < children@.len() ==> (#[trigger] children@[i]).1.wf(),
    ensures
        r is Err <==> sum_weights(children@) > usize::MAX,
        r matches Ok(n) ==> n.wf() && (n matches TrieNode::Edge { children: c, .. } && c@ == children@),
{
    let mut total: usize = 0;
    let mut i: usize = 0;
    while i < children.len()
        invariant
            i <= children@.len(),
            total == sum_weights(children@.subrange(0, i as int)),
        decreases children@.len() - i,
    {
        proof {
            assert(children@.subrange(0, i + 1).drop_last() =~= children@.subrange(0, i as int));
        }
        match total.checked_add(children[i].1.leaf_count()) {
            Some(t) => {
                total = t;
            },
            None => {
                proof {
                    lemma_sum_weights_prefix(children@, i + 1);
                }
                return Err(Error::InvalidData("too many leaves".to_string()));
            },
        }
        i = i + 1;
    }
    proof {
        assert(children@.subrange(0, i as int) =~= children@);
    }
    Ok(TrieNode::Edge { children, data: (), count: total })
}

proof fn lemma_sum_weights_prefix<E, L>(s: Seq<(usize, TrieNode<E, L>)>, n: int)
    requires
        0 <= n <= s.len(),
    ensures
        sum_weights(s.subrange(0, n)) <= sum_weights(s),
    decreases s.len() - n,
{
    if n < s.len() {
        lemma_sum_weights_prefix(s, n + 1);
        assert(s.subrange(0, n + 1).drop_last() =~= s.subrange(0, n));
    } else {
        assert(s.subrange(0, n) =~= s);
    }
}

proof fn lemma_put_keeps_wf<E, L>(s: Seq<(usize, TrieNode<E, L>)>, x: (usize, TrieNode<E, L>))
    requires
        sorted_keys(s),
        forall|i: int| 0 <= i < s.len() ==> (#[trigger] s[i]).1.wf(),
        x.1.wf(),
    ensures
        sorted_keys(put_spec(s, x)),
        forall|i: int| 0 <= i < put_spec(s, x).len() ==> (#[trigger] put_spec(s, x)[i]).1.wf(),
{
    lemma_put_spec_sorted(s, x);
    let r = put_spec(s, x);
    assert forall|i: int| 0 <= i < r.len() implies (#[trigger] r[i]).1.wf() by {
        assert(r.contains(r[i]));
        if r[i] != x {
            assert(s.contains(r[i]));
            let j = choose|j: int| 0 <= j < s.len() && s[j] == r[i];
            assert(s[j].1.wf());
        }
    }
}

/// Whether the names `b` extend `a`: every key of `a` names the same in `b`.
pub open spec fn names_extend(a: Seq<Seq<char>>, b: Seq<Seq<char>>) -> bool {
    a.len() <= b.len() && forall|i: int| 0 <= i < a.len() ==> b[i] == a[i]
}

/// Whether a child under `dir` was rightly kept by a walk: its key names an
/// entry that is neither `.` nor `..` and whose path is not ignored, and the
/// same holds beneath it.
pub open spec fn kept_child<L>(c: (usize, TrieNode<(), L>), dir: Seq<char>, names: Seq<Seq<char>>, ignore: Option<&IgnoreSet>) -> bool
    decreases c.1, 1nat,
{
    &&& c.0 < names.len()
    &&& !is_dot_entry(names[c.0 as int])
    &&& !is_ignored(ignore, join_spec(dir, names[c.0 as int]))
    &&& kept(c.1, join_spec(dir, names[c.0 as int]), names, ignore)
}

/// Whether every path in the tree below `node`, which stands at `dir`, was
/// rightly kept by a walk.
pub open spec fn kept<L>(node: TrieNode<(), L>, dir: Seq<char>, names: Seq<Seq<char>>, ignore: Option<&IgnoreSet>) -> bool
    decreases node, 0nat,
{
    match node {
        TrieNode::Leaf { .. } => true,
        TrieNode::Edge { children, .. } => forall|j: int|
            0 <= j < children@.len() ==> kept_child(#[trigger] children@[j], dir, names, ignore),
    }
}

/// The path that a sequence of keys spells below `dir`.
pub open spec fn path_text(dir: Seq<char>, names: Seq<Seq<char>>, keys: Seq<usize>) -> Seq<char>
    decreases keys.len(),
{
    if keys.len() == 0 {
        dir
    } else {
        path_text(join_spec(dir, names[keys[0] as int]), names, keys.drop_first())
    }
}

/// A walk leaves no ignored path in its tree: every node that a nonempty
/// sequence of keys reaches in a tree kept under `dir` spells a path that
/// the ignore set does not match, and none of its names is `.` or `..`.
pub proof fn lemma_kept_paths_not_ignored<L>(
    node: TrieNode<(), L>,
    dir: Seq<char>,
    names: Seq<Seq<char>>,
    ignore: Option<&IgnoreSet>,
    keys: Seq<usize>,
)
    requires
        kept(node, dir, names, ignore),
        keys.len() > 0,
        node.node_at(keys) is Some,
    ensures
        !is_ignored(ignore, path_text(dir, names, keys)),
        forall|j: int| 0 <= j < keys.len() ==> !is_dot_entry(#[trigger] names[keys[j] as int]),
    decreases keys.len(),
{
    match node {
        TrieNode::Leaf { .. } => {},
        TrieNode::Edge { children, .. } => {
            let i = child_index(children@, keys[0])->0;
            let c = children@[i];
            assert(kept_child(c, dir, names, ignore));
            let next = join_spec(dir, names[keys[0] as int]);
            let rest = keys.drop_first();
            if rest.len() > 0 {
                lemma_kept_paths_not_ignored(c.1, next, names, ignore, rest);
                assert forall|j: int| 0 <= j < keys.len() implies !is_dot_entry(#[trigger] names[keys[j] as int]) by {
                    if j > 0 {
                        assert(keys[j] == rest[j - 1]);
                    }
                }
            } else {
                assert(path_text(next, names, rest) == next);
            }
        },
    }
}

proof fn lemma_kept_extend<L>(node: TrieNode<(), L>, dir: Seq<char>, a: Seq<Seq<char>>, b: Seq<Seq<char>>, ignore: Option<&IgnoreSet>)
    requires
        kept(node, dir, a, ignore),
        names_extend(a, b),
    ensures
        kept(node, dir, b, ignore),
    decreases node,
{
    match node {
        TrieNode::Leaf { .. } => {},
        TrieNode::Edge { children, .. } => {
            assert forall|j: int| 0 <= j < children@.len() implies kept_child(#[trigger] children@[j], dir, b, ignore) by {
                let c = children@[j];
                assert(kept_child(c, dir, a, ignore));
                assert(b[c.0 as int] == a[c.0 as int]);
                assert(decreases_to!(node => c.1));
                lemma_kept_extend(c.1, join_spec(dir, a[c.0 as int]), a, b, ignore);
            }
        },
    }
}

/// Work done on each file of a walk; it decides what the tree keeps for
/// the file.
pub trait FileWork<P: Platform> {
    type Leaf;

    /// Whether the work reads each file's contents.
    fn reads_contents(&self) -> bool;

    /// The leaf of a file whose contents are not read.
    fn from_stat(&self, stat: FileStat) -> Result<Self::Leaf, Error>;

    /// The leaf of a file, reading its contents in chunks through `reader`
    /// and `block`.
    fn from_contents(
        &self,
        stat: FileStat,
        reader: &mut ReadIterator<P>,
        block: &mut Block,
    ) -> Result<Self::Leaf, Error>;
}

/// Keeps each file's stat and reads nothing.
#[derive(Debug, Clone, Copy)]
pub struct StatOnly;

impl<P: Platform> FileWork<P> for StatOnly {
    type Leaf = FileStat;

    fn reads_contents(&self) -> bool {
        false
    }

    fn from_stat(&self, stat: FileStat) -> Result<FileStat, Error> {
        Ok(FileStat::from_parts(stat, ()))
    }

    fn from_contents(&self, stat: FileStat, reader: &mut ReadIterator<P>, block: &mut Block) -> Result<FileStat, Error> {
        Ok(FileStat::from_parts(stat, ()))
    }
}

/// Error code of an open refused because no permit is left.
pub const EMFILE: i32 = 24;

proof fn lemma_ledger_round_trip(l: PermitLedger)
    requires
        l.wf(),
        l.available > 0,
    ensures
        l.after(PermitEvent::Acquire).after(PermitEvent::Close) == l,
        l.after(PermitEvent::Acquire).after(PermitEvent::OpenFailed) == l,
        l.after(PermitEvent::Acquire).open > 0,
        l.after(PermitEvent::Acquire).wf(),
{
}

/// Closes `handle` after a failure, returning its permit, and hands the
/// failure on.
fn fail_closing<P: Platform, T>(ledger: &mut PermitLedger, handle: P::Handle, e: Error) -> (r: Result<T, Error>)
    requires
        old(ledger).wf(),
        old(ledger).open > 0,
    ensures
        r == Err::<T, Error>(e),
        *final(ledger) == old(ledger).after(PermitEvent::Close),
{
    let _ = close_handle::<P>(ledger, handle);
    Err(e)
}

/// Runs `work` on the file at `path`. A file whose contents are read is
/// opened with a permit of its own, read through a pooled block sized for
/// it, and closed again; a file whose contents are not read is only stat'd.
fn process_file<P: Platform, W: FileWork<P>>(
    work: &W,
    path: String,
    pool: &mut BlockPool,
    ledger: &mut PermitLedger,
) -> (r: Result<W::Leaf, Error>)
    requires
        old(ledger).wf(),
    ensures
        *final(ledger) == *old(ledger),
{
    if !work.reads_contents() {
        let p = P::Path::try_new(path)?;
        let stat = P::stat(p)?;
        return work.from_stat(stat);
    }
    if ledger.available_permits() == 0 {
        return Err(Error::Unknown(EMFILE));
    }
    proof {
        lemma_ledger_round_trip(*ledger);
    }
    let (handle, stat) = open_file::<P>(ledger, HandleLocation::Path(path), FileDetails::new())?;
    let size = read_block_size(stat.optimal_blocksize);
    let block = pool.get_block(size);
    let mut reader: ReadIterator<P> = ReadIterator::new(handle);
    let leaf = work.from_contents(stat, &mut reader, block);
    let closed = close_handle::<P>(ledger, handle);
    let leaf = leaf?;
    closed?;
    Ok(leaf)
}

/// No name is held twice.
pub open spec fn distinct_names(names: Seq<Seq<char>>) -> bool {
    forall|i: int, j: int| 0 <= i < j < names.len() ==> names[i] != names[j]
}

/// The key of name `s`: its index among the interned names.
pub open spec fn key_of(names: Seq<Seq<char>>, s: Seq<char>) -> usize {
    (choose|k: int| 0 <= k < names.len() && #[trigger] names[k] == s) as usize
}

/// The children a directory gets from its listing `es` and the results
/// `rs` of its entries, in listing order: each entry with a result, under
/// the key of its name.
pub open spec fn keyed_children<L>(
    es: Seq<DirectoryEntry>,
    rs: Seq<Option<TrieNode<(), L>>>,
    names: Seq<Seq<char>>,
) -> Seq<(usize, TrieNode<(), L>)>
    decreases rs.len(),
{
    if rs.len() == 0 || es.len() == 0 {
        Seq::empty()
    } else {
        let prev = keyed_children(es.drop_last(), rs.drop_last(), names);
        match rs.last() {
            Some(n) => prev.push((key_of(names, es.last().name@), n)),
            None => prev,
        }
    }
}

/// Whether `rs` holds a result for exactly the entries of `es` that a walk
/// of `dir` visits: a leaf for each file and an edge for each directory.
pub open spec fn results_match_listing<L>(
    dir: Seq<char>,
    es: Seq<DirectoryEntry>,
    rs: Seq<Option<TrieNode<(), L>>>,
    ignore: Option<&IgnoreSet>,
) -> bool {
    &&& rs.len() == es.len()
    &&& forall|j: int| 0 <= j < es.len() ==> ((#[trigger] rs[j]) is Some <==> entry_action_spec(dir, es[j], ignore) is Some)
    &&& forall|j: int| 0 <= j < es.len() ==> (#[trigger] rs[j] matches Some(x) ==> (x is Leaf <==> es[j].kind == FileType::File))
}

proof fn lemma_key_of(names: Seq<Seq<char>>, k: int)
    requires
        distinct_names(names),
        0 <= k < names.len(),
        names.len() <= usize::MAX,
    ensures
        key_of(names, names[k]) == k,
{
    let s = names[k];
    assert(exists|c: int| 0 <= c < names.len() && #[trigger] names[c] == s);
    let c = choose|c: int| 0 <= c < names.len() && #[trigger] names[c] == s;
    if c < k {
        assert(names[c] != names[k]);
    } else if c > k {
        assert(names[k] != names[c]);
    }
    assert(c == k);
}

proof fn lemma_keyed_extend<L>(es: Seq<DirectoryEntry>, rs: Seq<Option<TrieNode<(), L>>>, a: Seq<Seq<char>>, b: Seq<Seq<char>>)
    requires
        es.len() == rs.len(),
        distinct_names(b),
        names_extend(a, b),
        b.len() <= usize::MAX,
        forall|j: int| 0 <= j < rs.len() && (#[trigger] rs[j]) is Some ==> a.contains(es[j].name@),
    ensures
        keyed_children(es, rs, a) == keyed_children(es, rs, b),
    decreases rs.len(),
{
    if rs.len() > 0 {
        assert forall|j: int| 0 <= j < rs.drop_last().len() && (#[trigger] rs.drop_last()[j]) is Some implies a.contains(es.drop_last()[j].name@) by {
            assert(rs.drop_last()[j] == rs[j]);
        }
        lemma_keyed_extend(es.drop_last(), rs.drop_last(), a, b);
        if rs.last() is Some {
            assert(rs[rs.len() - 1] is Some);
            let s = es.last().name@;
            assert(a.contains(s));
            let k = choose|k: int| 0 <= k < a.len() && a[k] == s;
            assert(distinct_names(a));
            lemma_key_of(a, k);
            assert(b[k] == a[k]);
            lemma_key_of(b, k);
        }
    }
}

proof fn lemma_put_all_push<N>(s: Seq<(usize, N)>, xs: Seq<(usize, N)>, x: (usize, N))
    ensures
        put_all(s, xs.push(x)) == put_spec(put_all(s, xs), x),
    decreases xs.len(),
{
    if xs.len() == 0 {
        assert(xs.push(x).drop_first() =~= Seq::<(usize, N)>::empty());
        assert(xs.push(x)[0] == x);
        assert(put_all(put_spec(s, x), Seq::<(usize, N)>::empty()) == put_spec(s, x));
        assert(put_all(s, xs) == s);
    } else {
        assert(xs.push(x).drop_first() =~= xs.drop_first().push(x));
        assert(xs.push(x)[0] == xs[0]);
        lemma_put_all_push(put_spec(s, xs[0]), xs.drop_first(), x);
    }
}

/// Builds the children of directory `dir` from its listing `entries` and
/// the results of its entries: every entry with a result is put under the
/// interned key of its name, in listing order. Fails with `InvalidData`
/// only when the interner is full.
pub fn assemble_children<L>(
    dir: &String,
    entries: &Vec<DirectoryEntry>,
    results: Vec<Option<TrieNode<(), L>>>,
    ignore: Option<&IgnoreSet>,
    strings: &mut lasso::Rodeo,
) -> (r: Result<Vec<(usize, TrieNode<(), L>)>, Error>)
    requires
        results@.len() == entries@.len(),
        interned_strings(*old(strings)).len() <= MAX_NAMES,
        distinct_names(interned_strings(*old(strings))),
        forall|j: int| 0 <= j < results@.len() ==> (#[trigger] results@[j] matches Some(x) ==> {
            &&& x.wf()
            &&& kept(x, join_spec(dir@, entries@[j].name@), interned_strings(*old(strings)), ignore)
            &&& entry_action_spec(dir@, entries@[j], ignore) is Some
        }),
    ensures
        interned_strings(*final(strings)).len() <= MAX_NAMES,
        names_extend(interned_strings(*old(strings)), interned_strings(*final(strings))),
        distinct_names(interned_strings(*final(strings))),
        r matches Err(e) ==> e is InvalidData,
        r matches Ok(c) ==> {
            &&& c@ == put_all(Seq::empty(), keyed_children(entries@, results@, interned_strings(*final(strings))))
            &&& sorted_keys(c@)
            &&& forall|j: int| 0 <= j < c@.len() ==> (#[trigger] c@[j]).1.wf()
            &&& forall|j: int| 0 <= j < c@.len() ==> kept_child(#[trigger] c@[j], dir@, interned_strings(*final(strings)), ignore)
        },
{
    let ghost rs = results@;
    let ghost es = entries@;
    let ghost names0 = interned_strings(*strings);
    let n = entries.len();
    let mut rest = results;
    let mut children: Vec<(usize, TrieNode<(), L>)> = Vec::new();
    let mut i: usize = 0;
    proof {
        assert(rs.subrange(0, 0) =~= Seq::<Option<TrieNode<(), L>>>::empty());
        assert(rest@ =~= rs.subrange(0, n as int));
    }
    while i < n
        invariant
            n == es.len(),
            es == entries@,
            rs.len() == n,
            i <= n,
            rest@ == rs.subrange(i as int, n as int),
            names0 == interned_strings(*old(strings)),
            interned_strings(*strings).len() <= MAX_NAMES,
            names_extend(names0, interned_strings(*strings)),
            distinct_names(interned_strings(*strings)),
            forall|j: int| 0 <= j < rs.len() ==> (#[trigger] rs[j] matches Some(x) ==> {
                &&& x.wf()
                &&& kept(x, join_spec(dir@, es[j].name@), names0, ignore)
                &&& entry_action_spec(dir@, es[j], ignore) is Some
            }),
            forall|j: int| 0 <= j < i && (#[trigger] rs[j]) is Some ==> interned_strings(*strings).contains(es[j].name@),
            children@ == put_all(Seq::empty(), keyed_children(es.subrange(0, i as int), rs.subrange(0, i as int), interned_strings(*strings))),
            sorted_keys(children@),
            forall|j: int| 0 <= j < children@.len() ==> (#[trigger] children@[j]).1.wf(),
            forall|j: int| 0 <= j < children@.len() ==> kept_child(#[trigger] children@[j], dir@, interned_strings(*strings), ignore),
        decreases n - i,
    {
        let ghost names = interned_strings(*strings);
        let ghost before = children@;
        let ghost es_i = es.subrange(0, i as int);
        let ghost rs_i = rs.subrange(0, i as int);
        let ghost es_n = es.subrange(0, i + 1);
        let ghost rs_n = rs.subrange(0, i + 1);
        proof {
            assert(es_n.drop_last() =~= es_i);
            assert(rs_n.drop_last() =~= rs_i);
            assert(rs_n.last() == rs[i as int]);
            assert(es_n.last() == es[i as int]);
            assert(rest@[0] == rs[i as int]);
        }
        let item = rest.remove(0);
        match item {
            None => {
                proof {
                    assert(keyed_children(es_n, rs_n, names) == keyed_children(es_i, rs_i, names));
                }
            },
            Some(node) => {
                if interned_count(strings) >= MAX_NAMES {
                    proof {
                        assert(names_extend(names0, names));
                    }
                    return Err(Error::InvalidData("too many names".to_string()));
                }
                let entry = &entries[i];
                let k = intern(strings, entry.name.as_str());
                let ghost names2 = interned_strings(*strings);
                proof {
                    assert(names_extend(names, names2));
                    assert(names2[k as int] == entry.name@);
                    assert(distinct_names(names2)) by {
                        if names2 != names {
                            assert(names2 == names.push(entry.name@));
                            assert forall|a: int, b: int| 0 <= a < b < names2.len() implies names2[a] != names2[b] by {
                                if b == names.len() {
                                    assert(names2[a] == names[a]);
                                }
                            }
                        }
                    }
                    assert forall|j: int| 0 <= j < rs_i.len() && (#[trigger] rs_i[j]) is Some implies names.contains(es_i[j].name@) by {
                        assert(rs_i[j] == rs[j]);
                        assert(es_i[j] == es[j]);
                    }
                    lemma_keyed_extend(es_i, rs_i, names, names2);
                    lemma_key_of(names2, k as int);
                    assert(keyed_children(es_n, rs_n, names2) == keyed_children(es_i, rs_i, names2).push((k, node)));
                    lemma_put_all_push(Seq::empty(), keyed_children(es_i, rs_i, names2), (k, node));
                    assert forall|j: int| 0 <= j < children@.len() implies kept_child(#[trigger] children@[j], dir@, names2, ignore) by {
                        let c = children@[j];
                        assert(kept_child(c, dir@, names, ignore));
                        assert(names2[c.0 as int] == names[c.0 as int]);
                        lemma_kept_extend(c.1, join_spec(dir@, names[c.0 as int]), names, names2, ignore);
                    }
                    assert(rs[i as int] == Some(node));
                    assert(names_extend(names0, names2));
                    lemma_kept_extend(node, join_spec(dir@, entry.name@), names0, names2, ignore);
                    assert(kept_child((k, node), dir@, names2, ignore));
                    lemma_put_keeps_wf(children@, (k, node));
                    lemma_put_spec_sorted(children@, (k, node));
                }
                put_child(&mut children, k, node);
                proof {
                    assert forall|j: int| 0 <= j < children@.len() implies kept_child(#[trigger] children@[j], dir@, names2, ignore) by {
                        assert(children@.contains(children@[j]));
                        if children@[j] != (k, node) {
                            let m = choose|m: int| 0 <= m < before.len() && before[m] == children@[j];
                        }
                    }
                }
            },
        }
        proof {
            let names2 = interned_strings(*strings);
            assert forall|j: int| 0 <= j < i + 1 && (#[trigger] rs[j]) is Some implies names2.contains(es[j].name@) by {
                if j < i {
                    let k = choose|k: int| 0 <= k < names.len() && names[k] == es[j].name@;
                    assert(names2[k] == names[k]);
                } else {
                    let k = key_of(names2, es[j].name@);
                }
            }
            assert(rest@ =~= rs.subrange(i + 1, n as int));
        }
        i = i + 1;
    }
    proof {
        assert(es.subrange(0, n as int) =~= es);
        assert(rs.subrange(0, n as int) =~= rs);
    }
    Ok(children)
}

/// Recursively walks the directory at `path`, returning an edge whose leaves
/// are what `work` made of the files beneath it, keyed by interned names.
///
/// The entries `.` and `..`, symbolic links and ignored paths are left out.
/// Every directory and every file whose contents are read takes a permit
/// from `ledger` while it is open; an open that finds none left fails. The
/// directory is closed after all of its entries are done, also when one of
/// them fails, and any failure fails the whole walk; either way every
/// permit is back when the walk returns.
pub fn walk_directory<P: Platform, W: FileWork<P>>(
    path: &String,
    ignore: Option<&IgnoreSet>,
    work: &W,
    pool: &mut BlockPool,
    ledger: &mut PermitLedger,
    strings: &mut lasso::Rodeo,
) -> (r: Result<TrieNode<(), W::Leaf>, Error>)
    requires
        old(ledger).wf(),
        interned_strings(*old(strings)).len() <= MAX_NAMES,
        distinct_names(interned_strings(*old(strings))),
    ensures
        *final(ledger) == *old(ledger),
        interned_strings(*final(strings)).len() <= MAX_NAMES,
        names_extend(interned_strings(*old(strings)), interned_strings(*final(strings))),
        distinct_names(interned_strings(*final(strings))),
        r matches Ok(n) ==> n.wf() && kept(n, path@, interned_strings(*final(strings)), ignore),
        r matches Ok(n) ==> (n matches TrieNode::Edge { children, .. } && exists|es: Seq<DirectoryEntry>, rs: Seq<Option<TrieNode<(), W::Leaf>>>|
            results_match_listing(path@, es, rs, ignore) && children@ == put_all(
                Seq::empty(),
                keyed_children(es, rs, interned_strings(*final(strings))),
            )),
        path@.len() > MAX_PATH_LEN ==> (r matches Err(e) && e is InvalidData),
        old(ledger).available == 0 ==> r is Err,
        !P::supported() ==> r is Err,
    decreases MAX_PATH_LEN - path@.len(),
{
    if path.as_str().unicode_len() > MAX_PATH_LEN {
        return Err(Error::InvalidData("path too long".to_string()));
    }
    if ledger.available_permits() == 0 {
        return Err(Error::Unknown(EMFILE));
    }
    proof {
        lemma_ledger_round_trip(*ledger);
    }
    let ghost start = *ledger;
    let handle = open_directory::<P>(ledger, HandleLocation::Path(path.clone()), DirectoryDetails::new())?;
    let entries = match P::listdir(handle) {
        Ok(e) => e,
        Err(e) => {
            return fail_closing::<P, _>(ledger, handle, e);
        },
    };
    let mut results: Vec<Option<TrieNode<(), W::Leaf>>> = Vec::new();
    let mut i: usize = 0;
    while i < entries.len()
        invariant
            i <= entries@.len(),
            path@.len() <= MAX_PATH_LEN,
            start.wf(),
            start.available > 0,
            start == *old(ledger),
            start.after(PermitEvent::Acquire).after(PermitEvent::Close) == start,
            start.after(PermitEvent::Acquire).open > 0,
            start.after(PermitEvent::Acquire).wf(),
            *ledger == start.after(PermitEvent::Acquire),
            results@.len() == i,
            interned_strings(*strings).len() <= MAX_NAMES,
            names_extend(interned_strings(*old(strings)), interned_strings(*strings)),
            distinct_names(interned_strings(*strings)),
            forall|j: int| 0 <= j < i ==> ((#[trigger] results@[j]) is Some <==> entry_action_spec(path@, entries@[j], ignore) is Some),
            forall|j: int| 0 <= j < i ==> (#[trigger] results@[j] matches Some(x) ==> {
                &&& x.wf()
                &&& kept(x, join_spec(path@, entries@[j].name@), interned_strings(*strings), ignore)
                &&& (x is Leaf <==> entries@[j].kind == FileType::File)
            }),
        decreases entries@.len() - i,
    {
        let entry = &entries[i];
        let ghost names_before = interned_strings(*strings);
        let ghost results_before = results@;
        let action = classify_entry(path, entry, ignore);
        let result = match action {
            EntryAction::Skip => None,
            EntryAction::File(p) => {
                match process_file::<P, W>(work, p, pool, ledger) {
                    Ok(leaf) => Some(TrieNode::Leaf { data: leaf }),
                    Err(e) => {
                        return fail_closing::<P, _>(ledger, handle, e);
                    },
                }
            },
            EntryAction::Directory(p) => {
                if p.as_str().unicode_len() > MAX_PATH_LEN {
                    return fail_closing::<P, _>(ledger, handle, Error::InvalidData("path too long".to_string()));
                }
                proof {
                    assert(p@.len() > path@.len());
                }
                match walk_directory::<P, W>(&p, ignore, work, pool, ledger, strings) {
                    Ok(n) => Some(n),
                    Err(e) => {
                        return fail_closing::<P, _>(ledger, handle, e);
                    },
                }
            },
        };
        let ghost names_after = interned_strings(*strings);
        proof {
            assert(names_extend(names_before, names_after));
            assert forall|j: int| 0 <= j < i implies (#[trigger] results_before[j] matches Some(x) ==> kept(x, join_spec(path@, entries@[j].name@), names_after, ignore)) by {
                if let Some(x) = results_before[j] {
                    lemma_kept_extend(x, join_spec(path@, entries@[j].name@), names_before, names_after, ignore);
                }
            }
        }
        results.push(result);
        proof {
            assert(results@[i as int] == result);
            assert forall|j: int| 0 <= j < i implies #[trigger] results@[j] == results_before[j] by {}
        }
        i = i + 1;
    }
    close_handle::<P>(ledger, handle)?;
    let ghost rs = results@;
    let ghost names_mid = interned_strings(*strings);
    let children = assemble_children(path, &entries, results, ignore, strings)?;
    proof {
        assert(results_match_listing(path@, entries@, rs, ignore));
    }
    edge_of(children)
}

/// What a tree keeps for each file, built from its stat and the value the
/// walk computed for it.
pub trait TreeFileMetadata: Sized {
    type Value;

    fn from_parts(stat: FileStat, other: Self::Value) -> Self;
}

impl TreeFileMetadata for FileStat {
    type Value = ();

    fn from_parts(stat: FileStat, other: ()) -> FileStat {
        stat
    }
}

impl<T> TreeFileMetadata for (FileStat, T) {
    type Value = T;

    fn from_parts(stat: FileStat, other: T) -> (FileStat, T) {
        (stat, other)
    }
}

/// A tree describing everything beneath a directory.
#[derive(Debug)]
pub struct MetadataTree<T> {
    /// Where the tree is rooted.
    root_path: String,
    /// Entries of the tree, keyed by interned names.
    trie: TrieMap<(), T>,
    /// The ignore set the tree was built with.
    ignore: Option<IgnoreSet>,
    /// Interned names.
    strings: lasso::Rodeo,
}

impl<T> MetadataTree<T> {
    pub closed spec fn spec_root_path(&self) -> Seq<char> {
        self.root_path@
    }

    pub closed spec fn spec_trie(&self) -> TrieMap<(), T> {
        self.trie
    }

    /// The patterns of the ignore set, if the tree has one.
    pub closed spec fn ignore_patterns(&self) -> Option<Seq<Seq<char>>> {
        match self.ignore {
            Some(s) => Some(s.patterns()),
            None => None,
        }
    }

    /// The names interned while building the tree.
    pub closed spec fn names(&self) -> Seq<Seq<char>> {
        interned_strings(self.strings)
    }

    /// The ignore set the tree was built with.
    pub closed spec fn spec_ignore(&self) -> Option<&IgnoreSet> {
        match &self.ignore {
            Some(s) => Some(s),
            None => None,
        }
    }

    pub open spec fn wf(&self) -> bool {
        &&& self.spec_trie().wf()
        &&& distinct_names(self.names())
        &&& self.names().len() <= MAX_NAMES
    }

    /// The keys that the names of a path stand for, if every name is known.
    pub open spec fn keys_of(&self, path: Seq<Seq<char>>) -> Option<Seq<usize>> {
        if forall|i: int| 0 <= i < path.len() ==> self.names().contains(#[trigger] path[i]) {
            Some(path.map_values(|s: Seq<char>| key_of(self.names(), s)))
        } else {
            None
        }
    }

    /// The node at the path spelled by `path`.
    pub open spec fn node_at_names(&self, path: Seq<Seq<char>>) -> Option<TrieNode<(), T>> {
        match self.keys_of(path) {
            Some(keys) => self.spec_trie().node_at(keys),
            None => None,
        }
    }

    /// Whether `path` is ignored by the tree's ignore set; never without one.
    pub fn ignored(&self, path: &str) -> (r: bool)
        ensures
            r == match self.ignore_patterns() {
                Some(p) => glob_set_matches(p, path@),
                None => false,
            },
            r == is_ignored(self.spec_ignore(), path@),
    {
        match &self.ignore {
            Some(s) => s.is_match(path),
            None => false,
        }
    }

    pub fn root_path(&self) -> (r: &String)
        ensures
            r@ == self.spec_root_path(),
    {
        &self.root_path
    }

    pub fn trie(&self) -> (r: &TrieMap<(), T>)
        ensures
            *r == self.spec_trie(),
    {
        &self.trie
    }

    /// Number of files in the tree.
    pub fn len(&self) -> (r: usize)
        ensures
            r == self.spec_trie().len(),
    {
        self.trie.leaf_count()
    }

    /// The name that component `k` stands for.
    pub fn component_name(&self, k: usize) -> (r: Option<String>)
        ensures
            k < self.names().len() ==> (r matches Some(s) && s@ == self.names()[k as int]),
            k >= self.names().len() ==> r is None,
    {
        if k < interned_count(&self.strings) {
            Some(resolve(&self.strings, k))
        } else {
            None
        }
    }

    /// The components of a path given as names, if every name is known.
    pub fn intern_path(&self, names: &Vec<String>) -> (r: Option<InternedPath>)
        requires
            self.wf(),
        ensures
            r matches Some(p) ==> self.keys_of(names@.map_values(|s: String| s@)) == Some(p.0@),
            r is None ==> self.keys_of(names@.map_values(|s: String| s@)) is None,
            r matches Some(p) ==> p.0@.len() == names@.len() && forall|i: int|
                0 <= i < names@.len() ==> p.0@[i] < self.names().len() && self.names()[p.0@[i] as int]
                    == names@[i]@,
            r is None ==> exists|i: int|
                0 <= i < names@.len() && !self.names().contains(#[trigger] names@[i]@),
    {
        let mut comps: Vec<usize> = Vec::new();
        let mut i: usize = 0;
        while i < names.len()
            invariant
                i <= names@.len(),
                comps@.len() == i,
                forall|m: int| 0 <= m < i ==> comps@[m] < self.names().len() && self.names()[comps@[m] as int] == names@[m]@,
                forall|m: int| 0 <= m < i ==> comps@[m] == key_of(self.names(), #[trigger] names@[m]@),
                self.wf(),
            decreases names@.len() - i,
        {
            match lookup_key(&self.strings, names[i].as_str()) {
                Some(k) => {
                    proof {
                        lemma_key_of(self.names(), k as int);
                    }
                    comps.push(k);
                },
                None => {
                    proof {
                        assert(!self.names().contains(names@[i as int]@));
                        let ss = names@.map_values(|s: String| s@);
                        assert(ss[i as int] == names@[i as int]@);
                        assert(!self.names().contains(ss[i as int]));
                    }
                    return None;
                },
            }
            i = i + 1;
        }
        proof {
            let ss = names@.map_values(|s: String| s@);
            assert forall|m: int| 0 <= m < ss.len() implies self.names().contains(#[trigger] ss[m]) by {
                assert(ss[m] == names@[m]@);
                assert(self.names()[comps@[m] as int] == ss[m]);
            }
            assert(comps@ =~= ss.map_values(|s: Seq<char>| key_of(self.names(), s)));
        }
        Some(InternedPath(comps))
    }

    /// The node at the path given by `names`.
    pub fn get(&self, names: &Vec<String>) -> (r: Option<&TrieNode<(), T>>)
        requires
            self.wf(),
        ensures
            r is Some <==> self.node_at_names(names@.map_values(|s: String| s@)) is Some,
            r matches Some(n) ==> self.node_at_names(names@.map_values(|s: String| s@)) == Some(*n),
    {
        match self.intern_path(names) {
            Some(p) => self.trie.get(&p),
            None => None,
        }
    }
}

/// Builds a [`MetadataTree`] by walking a directory.
#[derive(Debug)]
pub struct TreeBuilder<W> {
    root_path: String,
    ignore: Option<IgnoreSet>,
    work: W,
}

impl TreeBuilder<StatOnly> {
    /// A builder for the tree of file stats beneath `root_path`, without an
    /// ignore set.
    pub fn new(root_path: String) -> (r: TreeBuilder<StatOnly>)
        ensures
            r.spec_root_path() == root_path@,
            r.ignore_patterns() is None,
            r.spec_ignore() is None,
    {
        TreeBuilder { root_path, ignore: None, work: StatOnly }
    }

    /// A builder for the tree beneath an open directory.
    pub fn for_directory<P: Platform>(handle: P::Handle) -> (r: Result<TreeBuilder<StatOnly>, Error>)
        ensures
            r matches Ok(b) ==> b.ignore_patterns() is None,
            !P::supported() ==> r is Err,
    {
        let path = P::fgetpath(handle)?;
        Ok(TreeBuilder::new(path.into_string()))
    }
}

impl<W> TreeBuilder<W> {
    pub closed spec fn spec_root_path(&self) -> Seq<char> {
        self.root_path@
    }

    pub closed spec fn ignore_patterns(&self) -> Option<Seq<Seq<char>>> {
        match self.ignore {
            Some(s) => Some(s.patterns()),
            None => None,
        }
    }

    pub closed spec fn spec_ignore(&self) -> Option<&IgnoreSet> {
        match &self.ignore {
            Some(s) => Some(s),
            None => None,
        }
    }

    /// Leave out of the tree every path that `glob_set` matches.
    pub fn ignore(self, glob_set: IgnoreSet) -> (r: TreeBuilder<W>)
        ensures
            r.spec_root_path() == self.spec_root_path(),
            r.ignore_patterns() == Some(glob_set.patterns()),
            r.spec_ignore() == Some(&glob_set),
    {
        TreeBuilder { root_path: self.root_path, ignore: Some(glob_set), work: self.work }
    }

    /// Run `work` on every file; its results become the leaves.
    pub fn with_data<V>(self, work: V) -> (r: TreeBuilder<V>)
        ensures
            r.spec_root_path() == self.spec_root_path(),
            r.ignore_patterns() == self.ignore_patterns(),
            r.spec_ignore() == self.spec_ignore(),
    {
        TreeBuilder { root_path: self.root_path, ignore: self.ignore, work }
    }

    /// Walks the directory and builds the tree, taking permits from `ledger`
    /// for what it opens and giving every one back.
    pub fn build<P: Platform>(self, ledger: &mut PermitLedger) -> (r: Result<MetadataTree<W::Leaf>, Error>)
        where
            W: FileWork<P>,
        requires
            old(ledger).wf(),
        ensures
            r matches Ok(t) ==> {
                &&& t.wf()
                &&& t.spec_root_path() == self.spec_root_path()
                &&& t.ignore_patterns() == self.ignore_patterns()
                &&& t.spec_ignore() == self.spec_ignore()
                &&& kept(t.spec_trie().root_node(), t.spec_root_path(), t.names(), t.spec_ignore())
            },
            !P::supported() ==> r is Err,
            *final(ledger) == *old(ledger),
    {
        let mut strings = new_interner();
        let mut pool = BlockPool::new();
        let root = walk_directory::<P, W>(&self.root_path, self.ignore.as_ref(), &self.work, &mut pool, ledger, &mut strings)?;
        Ok(MetadataTree {
            root_path: self.root_path,
            trie: TrieMap::from_node(root),
            ignore: self.ignore,
            strings,
        })
    }
}

} // verus!
