//! A single entry of the tree: a directory or a file.

use vstd::prelude::*;
use crate::filesystem::FileSystem;
use crate::laws::lemma_sizes_sum_grows;
use crate::tree::{node_size, sizes_sum};

verus! {

/// A handle to a node: its index in the arena of the tree that holds it.
pub type NodeRef = usize;

/// What a node is.
pub enum NodeType {
    /// A directory, with its children in the order in which they were attached.
    Directory { children: Vec<NodeRef> },
    /// A file, with the size that was declared for it.
    File { size: u64 },
}

/// An entry of the tree.
pub struct Node {
    pub name: String,
    pub node_type: NodeType,
    /// The directory that lists this node; `None` for a root or a node that
    /// has not been attached.
    pub parent: Option<NodeRef>,
}

/// The mathematical value of a [`NodeType`].
pub enum KindView {
    Directory { children: Seq<NodeRef> },
    File { size: u64 },
}

/// The mathematical value of a [`Node`].
pub struct NodeView {
    pub name: Seq<char>,
    pub kind: KindView,
    pub parent: Option<NodeRef>,
}

impl NodeView {
    pub open spec fn is_directory(self) -> bool {
        self.kind is Directory
    }

    /// The children of a directory; a file has none.
    pub open spec fn children(self) -> Seq<NodeRef> {
        match self.kind {
            KindView::Directory { children } => children,
            KindView::File { .. } => Seq::empty(),
        }
    }
}

impl View for NodeType {
    type V = KindView;

    open spec fn view(&self) -> KindView {
        match *self {
            NodeType::Directory { children } => KindView::Directory { children: children@ },
            NodeType::File { size } => KindView::File { size },
        }
    }
}

impl View for Node {
    type V = NodeView;

    open spec fn view(&self) -> NodeView {
        NodeView { name: self.name@, kind: self.node_type@, parent: self.parent }
    }
}

impl Node {
    /// A detached file of the given size.
    pub fn new_file(name: &str, size: u64) -> (node: Node)
        ensures
            node@ == (NodeView { name: name@, kind: KindView::File { size }, parent: None }),
    {
        Node { name: name.to_owned(), node_type: NodeType::File { size }, parent: None }
    }

    /// A detached directory without children.
    pub fn new_directory(name: &str) -> (node: Node)
        ensures
            node@ == (NodeView {
                name: name@,
                kind: KindView::Directory { children: Seq::empty() },
                parent: None,
            }),
    {
        Node {
            name: name.to_owned(),
            node_type: NodeType::Directory { children: Vec::new() },
            parent: None,
        }
    }

    pub fn is_directory(&self) -> (b: bool)
        ensures
            b == self@.is_directory(),
    {
        match &self.node_type {
            NodeType::Directory { .. } => true,
            NodeType::File { .. } => false,
        }
    }

    /// The children of a directory, `None` for a file.
    pub fn get_children(&self) -> (r: Option<&Vec<NodeRef>>)
        ensures
            self@.is_directory() ==> r is Some && r.unwrap()@ == self@.children(),
            !self@.is_directory() ==> r is None,
    {
        match &self.node_type {
            NodeType::Directory { children } => Some(children),
            NodeType::File { .. } => None,
        }
    }

    pub fn get_parent(&self) -> (r: Option<NodeRef>)
        ensures
            r == self@.parent,
    {
        self.parent
    }

    /// Records `parent` as the directory that lists this node.
    pub fn set_parent(&mut self, parent: NodeRef)
        ensures
            final(self)@ == (NodeView { parent: Some(parent), ..old(self)@ }),
    {
        self.parent = Some(parent);
    }

    /// The size of this node, whose children are nodes of `fs`: the declared
    /// size of a file, the sum of the sizes of its children for a directory,
    /// walked anew at each call. The sum must fit 64 bits.
    pub fn get_size(&self, fs: &FileSystem) -> (r: u64)
        requires
            fs.wf(),
            forall|k: int|
                0 <= k < self@.children().len() ==> fs@.contains(
                    #[trigger] self@.children()[k] as int,
                ),
            node_size(fs@.nodes, self@) <= u64::MAX,
        ensures
            r == node_size(fs@.nodes, self@),
    {
        match &self.node_type {
            NodeType::File { size } => *size,
            NodeType::Directory { children } => {
                let mut total: u64 = 0;
                let mut k: usize = 0;
                while k < children.len()
                    invariant
                        fs.wf(),
                        children@ == self@.children(),
                        forall|j: int|
                            0 <= j < self@.children().len() ==> fs@.contains(
                                #[trigger] self@.children()[j] as int,
                            ),
                        sizes_sum(fs@.nodes, children@) <= u64::MAX,
                        k <= children.len(),
                        total == sizes_sum(fs@.nodes, children@.take(k as int)),
                    decreases children.len() - k,
                {
                    proof {
                        lemma_sizes_sum_grows(fs@.nodes, children@, k + 1);
                        assert(children@.take(k + 1).drop_last() =~= children@.take(k as int));
                        assert(children@.take(k + 1).last() == children@[k as int]);
                    }
                    let size = fs.size_of(children[k]);
                    total = total + size;
                    k += 1;
                }
                proof {
                    assert(children@.take(k as int) =~= children@);
                }
                total
            },
        }
    }
}

} // verus!
