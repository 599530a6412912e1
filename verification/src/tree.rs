//! The mathematical model of the tree: a sequence of node values addressed by
//! index, with the rules that make it a tree, and the definitions of subtree
//! size and of the per-directory size report.

use vstd::prelude::*;
use crate::node::{KindView, NodeRef, NodeView};

verus! {

/// Why navigation or reading the log failed. Moving up from the root is no
/// error: the root stays current.
#[derive(Clone, Copy, Debug, PartialEq, Eq, Structural)]
pub enum ErrorKind {
    /// The current directory has no child of the requested name.
    NotFound,
    /// The first child of the requested name is a file.
    NotADirectory,
    /// The size of a file listing is not a decimal number that fits 64 bits.
    InvalidSize,
}

/// The mathematical value of a file system: its nodes, the root first, and
/// the index of the current directory.
pub struct TreeView {
    pub nodes: Seq<NodeView>,
    pub current: NodeRef,
}

/// The name that always resolves to the root.
pub open spec fn root_name() -> Seq<char> {
    seq!['/']
}

/// The name that resolves to the parent of the current directory.
pub open spec fn parent_name() -> Seq<char> {
    seq!['.', '.']
}

/// Whether `i` is the index of a node.
pub open spec fn in_range(nodes: Seq<NodeView>, i: int) -> bool {
    0 <= i < nodes.len()
}

/// Whether `i` is the index of a directory.
pub open spec fn directory_at(nodes: Seq<NodeView>, i: int) -> bool {
    in_range(nodes, i) && nodes[i].is_directory()
}

/// The structural rules of the nodes. Node 0 is the root, a directory
/// without parent. Every other node names as its parent an earlier directory
/// that lists it. A directory lists later nodes only, in increasing order (so
/// none twice), and each of them names it as parent. Every index fits a
/// handle.
pub open spec fn nodes_wf(nodes: Seq<NodeView>) -> bool {
    &&& nodes.len() <= usize::MAX
    &&& directory_at(nodes, 0)
    &&& nodes[0].parent is None
    &&& forall|i: int|
        0 < i < nodes.len() ==> {
            &&& (#[trigger] nodes[i]).parent is Some
            &&& nodes[i].parent.unwrap() < i
            &&& directory_at(nodes, nodes[i].parent.unwrap() as int)
            &&& nodes[nodes[i].parent.unwrap() as int].children().contains(i as usize)
        }
    &&& forall|i: int, k: int|
        0 <= i < nodes.len() && 0 <= k < nodes[i].children().len() ==> {
            &&& i < (#[trigger] nodes[i].children()[k]) < nodes.len()
            &&& nodes[nodes[i].children()[k] as int].parent == Some(i as usize)
        }
    &&& forall|i: int, j: int, k: int|
        0 <= i < nodes.len() && 0 <= j < k < nodes[i].children().len()
            ==> #[trigger] nodes[i].children()[j] < #[trigger] nodes[i].children()[k]
}

/// The size of the subtree under node `i`: the declared size of a file, the
/// sum of the sizes of its children for a directory.
pub open spec fn subtree_size(nodes: Seq<NodeView>, i: int) -> nat
    decreases nodes.len() - i, 1nat, 0nat,
{
    if in_range(nodes, i) {
        match nodes[i].kind {
            KindView::File { size } => size as nat,
            KindView::Directory { children } => children_size(nodes, i, children.len()),
        }
    } else {
        0
    }
}

/// The sum of the sizes of the first `k` children of node `i`.
pub open spec fn children_size(nodes: Seq<NodeView>, i: int, k: nat) -> nat
    decreases nodes.len() - i, 0nat, k,
{
    if k == 0 || !in_range(nodes, i) || k > nodes[i].children().len() {
        0
    } else {
        let c = nodes[i].children()[k - 1] as int;
        children_size(nodes, i, (k - 1) as nat) + if i < c < nodes.len() {
            subtree_size(nodes, c)
        } else {
            0
        }
    }
}

/// The sum of the sizes of the subtrees under the listed nodes.
pub open spec fn sizes_sum(nodes: Seq<NodeView>, refs: Seq<NodeRef>) -> nat
    decreases refs.len(),
{
    if refs.len() == 0 {
        0
    } else {
        sizes_sum(nodes, refs.drop_last()) + subtree_size(nodes, refs.last() as int)
    }
}

/// The size of a node whose children are nodes of `nodes`: the declared size
/// of a file, the sum of the sizes of its children for a directory.
pub open spec fn node_size(nodes: Seq<NodeView>, node: NodeView) -> nat {
    match node.kind {
        KindView::File { size } => size as nat,
        KindView::Directory { children } => sizes_sum(nodes, children),
    }
}

/// Whether node `a` is node `i` or lies on the chain of parents from `i` up.
pub open spec fn is_ancestor(nodes: Seq<NodeView>, a: int, i: int) -> bool
    decreases i,
{
    a == i || (0 < i < nodes.len() && nodes[i].parent is Some && nodes[i].parent.unwrap() < i
        && is_ancestor(nodes, a, nodes[i].parent.unwrap() as int))
}

/// The size report of node `i`: its own size, then the reports of its
/// children that are directories, in the order of their attachment.
pub open spec fn subtree_sizes(nodes: Seq<NodeView>, i: int) -> Seq<nat>
    decreases nodes.len() - i, 1nat, 0nat,
{
    if in_range(nodes, i) {
        seq![subtree_size(nodes, i)] + children_sizes(nodes, i, nodes[i].children().len())
    } else {
        Seq::empty()
    }
}

/// The reports of the directories among the first `k` children of node `i`,
/// one after the other.
pub open spec fn children_sizes(nodes: Seq<NodeView>, i: int, k: nat) -> Seq<nat>
    decreases nodes.len() - i, 0nat, k,
{
    if k == 0 || !in_range(nodes, i) || k > nodes[i].children().len() {
        Seq::empty()
    } else {
        let c = nodes[i].children()[k - 1] as int;
        children_sizes(nodes, i, (k - 1) as nat) + if i < c < nodes.len()
            && nodes[c].is_directory() {
            subtree_sizes(nodes, c)
        } else {
            Seq::empty()
        }
    }
}

/// The first child of node `i`, from position `from` on, whose name is
/// `name`.
pub open spec fn first_named(nodes: Seq<NodeView>, i: int, name: Seq<char>, from: int) -> Option<
    NodeRef,
>
    decreases nodes[i].children().len() - from,
{
    if from < 0 || from >= nodes[i].children().len() {
        None
    } else if nodes[nodes[i].children()[from] as int].name == name {
        Some(nodes[i].children()[from])
    } else {
        first_named(nodes, i, name, from + 1)
    }
}

/// The nodes after a new node of the given name and kind is attached as the
/// last child of directory `parent`. The new node gets the next free index;
/// no other node moves.
pub open spec fn attached(
    nodes: Seq<NodeView>,
    parent: NodeRef,
    name: Seq<char>,
    kind: KindView,
) -> Seq<NodeView> {
    let listed = NodeView {
        kind: KindView::Directory {
            children: nodes[parent as int].children().push(nodes.len() as usize),
        },
        ..nodes[parent as int]
    };
    nodes.update(parent as int, listed).push(NodeView { name, kind, parent: Some(parent) })
}

impl TreeView {
    /// A tree that holds only an empty root directory named `/`.
    pub open spec fn fresh() -> TreeView {
        TreeView {
            nodes: seq![
                NodeView {
                    name: root_name(),
                    kind: KindView::Directory { children: Seq::empty() },
                    parent: None,
                },
            ],
            current: 0,
        }
    }

    pub open spec fn contains(self, i: int) -> bool {
        in_range(self.nodes, i)
    }

    pub open spec fn is_directory(self, i: int) -> bool {
        directory_at(self.nodes, i)
    }

    /// The children of node `i`, in the order of their attachment.
    pub open spec fn children(self, i: int) -> Seq<NodeRef> {
        self.nodes[i].children()
    }

    /// The nodes form a tree and the current directory is a directory of it.
    pub open spec fn wf(self) -> bool {
        nodes_wf(self.nodes) && self.is_directory(self.current as int)
    }

    /// The size of the subtree under node `i`.
    pub open spec fn size_of(self, i: int) -> nat {
        subtree_size(self.nodes, i)
    }

    /// The size report of node `i`, one entry for each directory under it.
    pub open spec fn sizes_of(self, i: int) -> Seq<nat> {
        subtree_sizes(self.nodes, i)
    }

    /// The first child of the current directory whose name is `name`.
    pub open spec fn find_child(self, name: Seq<char>) -> Option<NodeRef> {
        first_named(self.nodes, self.current as int, name, 0)
    }

    /// The node that `name` stands for, seen from the current directory: the
    /// root for `/`; for `..` the parent, or the root itself at the root; else
    /// the first child of that name, which must exist and be a directory.
    pub open spec fn resolve(self, name: Seq<char>) -> Result<NodeRef, ErrorKind> {
        if name == root_name() {
            Ok(0)
        } else if name == parent_name() {
            match self.nodes[self.current as int].parent {
                Some(p) => Ok(p),
                None => Ok(0),
            }
        } else {
            match self.find_child(name) {
                None => Err(ErrorKind::NotFound),
                Some(c) => if self.nodes[c as int].is_directory() {
                    Ok(c)
                } else {
                    Err(ErrorKind::NotADirectory)
                },
            }
        }
    }

    /// The tree after `change_dir(name)`: the current directory moves where
    /// `name` resolves; nothing else changes.
    pub open spec fn change_dir(self, name: Seq<char>) -> Result<TreeView, ErrorKind> {
        match self.resolve(name) {
            Ok(target) => Ok(TreeView { current: target, ..self }),
            Err(e) => Err(e),
        }
    }

    /// The tree after a new node is attached as the last child of directory
    /// `parent`; the current directory stays.
    pub open spec fn attach(self, parent: NodeRef, name: Seq<char>, kind: KindView) -> TreeView {
        TreeView { nodes: attached(self.nodes, parent, name, kind), current: self.current }
    }
}

/// Attaching a file, or a directory without children, to a directory of
/// well-formed nodes gives well-formed nodes.
pub proof fn lemma_attached_wf(
    nodes: Seq<NodeView>,
    parent: NodeRef,
    name: Seq<char>,
    kind: KindView,
)
    requires
        nodes_wf(nodes),
        nodes.len() < usize::MAX,
        directory_at(nodes, parent as int),
        kind is Directory ==> kind->children.len() == 0,
    ensures
        nodes_wf(attached(nodes, parent, name, kind)),
{
    let t = attached(nodes, parent, name, kind);
    let n = nodes.len() as int;
    assert forall|i: int| 0 <= i < n && i != parent implies t[i] == nodes[i] by {}
    assert(t[parent as int].children() == nodes[parent as int].children().push(n as usize));
    assert forall|i: int| 0 < i < t.len() implies {
        &&& (#[trigger] t[i]).parent is Some
        &&& t[i].parent.unwrap() < i
        &&& directory_at(t, t[i].parent.unwrap() as int)
        &&& t[t[i].parent.unwrap() as int].children().contains(i as usize)
    } by {
        if i < n {
            let p = nodes[i].parent.unwrap() as int;
            assert(nodes[p].children().contains(i as usize));
            let k = choose|k: int|
                0 <= k < nodes[p].children().len() && nodes[p].children()[k] == i as usize;
            assert(t[p].children()[k] == i as usize);
        } else {
            assert(t[parent as int].children()[nodes[parent as int].children().len() as int]
                == n as usize);
        }
    }
    assert forall|i: int, k: int| 0 <= i < t.len() && 0 <= k < t[i].children().len() implies {
        &&& i < (#[trigger] t[i].children()[k]) < t.len()
        &&& t[t[i].children()[k] as int].parent == Some(i as usize)
    } by {
        if i < n && k < nodes[i].children().len() {
            assert(t[i].children()[k] == nodes[i].children()[k]);
        }
    }
    assert forall|i: int, j: int, k: int|
        0 <= i < t.len() && 0 <= j < k < t[i].children().len() implies #[trigger] t[i].children()[j]
        < #[trigger] t[i].children()[k] by {
        if i < n {
            assert(t[i].children()[j] == nodes[i].children()[j]);
            if k < nodes[i].children().len() {
                assert(t[i].children()[k] == nodes[i].children()[k]);
            }
        }
    }
}

/// What `first_named` finds is a child of the node, a node itself, and has
/// the name.
pub proof fn lemma_first_named_is_child(nodes: Seq<NodeView>, i: int, name: Seq<char>, from: int)
    requires
        nodes_wf(nodes),
        in_range(nodes, i),
        0 <= from,
        first_named(nodes, i, name, from) is Some,
    ensures
        nodes[i].children().contains(first_named(nodes, i, name, from).unwrap()),
        in_range(nodes, first_named(nodes, i, name, from).unwrap() as int),
        nodes[first_named(nodes, i, name, from).unwrap() as int].name == name,
    decreases nodes[i].children().len() - from,
{
    if from < nodes[i].children().len() {
        let c = nodes[i].children()[from];
        if nodes[c as int].name != name {
            lemma_first_named_is_child(nodes, i, name, from + 1);
        }
    }
}

/// The sum over the first `j` children is at most the sum over the first
/// `k`, for `j <= k`.
pub proof fn lemma_children_size_grows(nodes: Seq<NodeView>, i: int, j: nat, k: nat)
    requires
        in_range(nodes, i),
        j <= k <= nodes[i].children().len(),
    ensures
        children_size(nodes, i, j) <= children_size(nodes, i, k),
    decreases k,
{
    if j < k {
        lemma_children_size_grows(nodes, i, j, (k - 1) as nat);
    }
}

/// The size of a child is at most the size of the directory that lists it.
pub proof fn lemma_child_size_bounded(nodes: Seq<NodeView>, i: int, k: int)
    requires
        nodes_wf(nodes),
        in_range(nodes, i),
        0 <= k < nodes[i].children().len(),
    ensures
        subtree_size(nodes, nodes[i].children()[k] as int) <= subtree_size(nodes, i),
{
    let c = nodes[i].children()[k];
    assert(i < c < nodes.len());
    lemma_children_size_grows(nodes, i, (k + 1) as nat, nodes[i].children().len());
}

} // verus!
