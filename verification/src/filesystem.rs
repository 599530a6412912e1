//! The tree manager: owns the nodes, tracks the current directory, creates
//! entries and navigates.

use vstd::prelude::*;
use crate::node::{KindView, Node, NodeRef, NodeType};
use crate::laws::{attach_adds_size_to_root, own_size};
use crate::text::same_text;
pub use crate::tree::ErrorKind;
use crate::tree::{
    children_size, first_named, lemma_attached_wf, lemma_children_size_grows,
    lemma_first_named_is_child, parent_name, root_name, TreeView,
};

verus! {

/// A directory tree with a current directory.
pub struct FileSystem {
    nodes: Vec<Node>,
    current_dir: NodeRef,
}

impl View for FileSystem {
    type V = TreeView;

    closed spec fn view(&self) -> TreeView {
        TreeView {
            nodes: Seq::new(self.nodes@.len(), |i: int| self.nodes@[i]@),
            current: self.current_dir,
        }
    }
}

impl FileSystem {
    /// The structural rules of the tree hold.
    pub open spec fn wf(&self) -> bool {
        self@.wf()
    }

    /// A tree that holds only the root directory `/`, which is current.
    pub fn new() -> (fs: FileSystem)
        ensures
            fs.wf(),
            fs@ == TreeView::fresh(),
    {
        let root = Node::new_directory("/");
        let mut nodes: Vec<Node> = Vec::new();
        nodes.push(root);
        let fs = FileSystem { nodes, current_dir: 0 };
        proof {
            reveal_strlit("/");
            assert("/"@ =~= root_name());
            assert(fs@.nodes =~= TreeView::fresh().nodes);
        }
        fs
    }

    /// The root directory.
    pub fn get_root(&self) -> (r: NodeRef)
        ensures
            r == 0,
    {
        0
    }

    /// The current directory.
    pub fn get_current_dir(&self) -> (r: NodeRef)
        ensures
            r == self@.current,
    {
        self.current_dir
    }

    /// The number of nodes; the handles in use are those below it.
    pub fn node_count(&self) -> (n: usize)
        ensures
            n == self@.nodes.len(),
    {
        self.nodes.len()
    }

    /// The node behind a handle.
    pub fn get_node(&self, node: NodeRef) -> (r: &Node)
        requires
            self@.contains(node as int),
        ensures
            r@ == self@.nodes[node as int],
    {
        &self.nodes[node]
    }

    /// Attaches `child` as the last child of `parent` and records `parent` in
    /// it.
    fn add_child(&mut self, parent: NodeRef, child: Node) -> (r: NodeRef)
        requires
            old(self).wf(),
            old(self)@.is_directory(parent as int),
            child@.kind is Directory ==> child@.children().len() == 0,
        ensures
            final(self).wf(),
            final(self)@ == old(self)@.attach(parent, child@.name, child@.kind),
            final(self)@.size_of(0) == old(self)@.size_of(0) + own_size(child@.kind),
            r == old(self)@.nodes.len(),
    {
        let index = self.nodes.len();
        let mut child = child;
        child.set_parent(parent);
        match &mut self.nodes[parent].node_type {
            NodeType::Directory { children } => {
                children.push(index);
            },
            NodeType::File { .. } => {},
        }
        self.nodes.push(child);
        proof {
            vstd::std_specs::vec::axiom_spec_len(&self.nodes);
            assert(self@.nodes =~= old(self)@.attach(parent, child@.name, child@.kind).nodes);
            lemma_attached_wf(old(self)@.nodes, parent, child@.name, child@.kind);
            attach_adds_size_to_root(old(self)@.nodes, parent, child@.name, child@.kind);
        }
        index
    }

    /// Creates a directory without children as the last child of `parent`,
    /// which must be a directory, and returns its handle. No node moves and
    /// no size changes.
    pub fn create_directory_in(&mut self, parent: NodeRef, name: &str) -> (r: NodeRef)
        requires
            old(self).wf(),
            old(self)@.is_directory(parent as int),
        ensures
            final(self).wf(),
            final(self)@ == old(self)@.attach(
                parent,
                name@,
                KindView::Directory { children: Seq::empty() },
            ),
            final(self)@.size_of(0) == old(self)@.size_of(0),
            r == old(self)@.nodes.len(),
    {
        self.add_child(parent, Node::new_directory(name))
    }

    /// Creates a file of the given size as the last child of `parent`, which
    /// must be a directory, and returns its handle. No node moves; the tree
    /// grows by `size`.
    pub fn create_file_in(&mut self, parent: NodeRef, name: &str, size: u64) -> (r: NodeRef)
        requires
            old(self).wf(),
            old(self)@.is_directory(parent as int),
        ensures
            final(self).wf(),
            final(self)@ == old(self)@.attach(parent, name@, KindView::File { size }),
            final(self)@.size_of(0) == old(self)@.size_of(0) + size,
            r == old(self)@.nodes.len(),
    {
        self.add_child(parent, Node::new_file(name, size))
    }

    /// Creates a directory without children as the last child of the current
    /// directory and returns its handle.
    pub fn create_directory(&mut self, name: &str) -> (r: NodeRef)
        requires
            old(self).wf(),
        ensures
            final(self).wf(),
            final(self)@ == old(self)@.attach(
                old(self)@.current,
                name@,
                KindView::Directory { children: Seq::empty() },
            ),
            final(self)@.size_of(0) == old(self)@.size_of(0),
            r == old(self)@.nodes.len(),
    {
        self.create_directory_in(self.current_dir, name)
    }

    /// Creates a file of the given size as the last child of the current
    /// directory and returns its handle.
    pub fn create_file(&mut self, name: &str, size: u64) -> (r: NodeRef)
        requires
            old(self).wf(),
        ensures
            final(self).wf(),
            final(self)@ == old(self)@.attach(old(self)@.current, name@, KindView::File { size }),
            final(self)@.size_of(0) == old(self)@.size_of(0) + size,
            r == old(self)@.nodes.len(),
    {
        self.create_file_in(self.current_dir, name, size)
    }

    /// The first child of the current directory whose name is exactly `name`.
    fn find_child(&self, name: &str) -> (r: Option<NodeRef>)
        requires
            self.wf(),
        ensures
            r == self@.find_child(name@),
    {
        let key = name.to_owned();
        match &self.nodes[self.current_dir].node_type {
            NodeType::File { .. } => None,
            NodeType::Directory { children } => {
                let mut k: usize = 0;
                while k < children.len()
                    invariant
                        self.wf(),
                        key@ == name@,
                        children@ == self@.children(self@.current as int),
                        k <= children.len(),
                        self@.find_child(name@) == first_named(
                            self@.nodes,
                            self@.current as int,
                            name@,
                            k as int,
                        ),
                    decreases children.len() - k,
                {
                    let c = children[k];
                    assert(self@.children(self@.current as int)[k as int] == c);
                    if self.nodes[c].name == key {
                        return Some(c);
                    }
                    k += 1;
                }
                None
            },
        }
    }

    /// The node that `path` stands for, seen from the current directory.
    fn resolve_path(&self, path: &str) -> (r: Result<NodeRef, ErrorKind>)
        requires
            self.wf(),
        ensures
            r == self@.resolve(path@),
            r is Ok ==> self@.is_directory(r->Ok_0 as int),
    {
        proof {
            reveal_strlit("/");
            reveal_strlit("..");
            assert("/"@ =~= root_name());
            assert(".."@ =~= parent_name());
        }
        if same_text(path, "/") {
            Ok(0)
        } else if same_text(path, "..") {
            match self.nodes[self.current_dir].get_parent() {
                Some(p) => Ok(p),
                None => Ok(0),
            }
        } else {
            match self.find_child(path) {
                None => Err(ErrorKind::NotFound),
                Some(c) => {
                    proof {
                        lemma_first_named_is_child(self@.nodes, self@.current as int, path@, 0);
                    }
                    if self.nodes[c].is_directory() {
                        Ok(c)
                    } else {
                        Err(ErrorKind::NotADirectory)
                    }
                },
            }
        }
    }

    /// Makes the directory that `name` stands for the current one: the root
    /// for `/`; for `..` the parent, and at the root the root itself; for any
    /// other name the first child of that name. Fails with `NotFound` where
    /// there is no such child and with `NotADirectory` where it is a file,
    /// and then changes nothing.
    pub fn change_dir(&mut self, name: &str) -> (r: Result<(), ErrorKind>)
        requires
            old(self).wf(),
        ensures
            final(self).wf(),
            match old(self)@.change_dir(name@) {
                Ok(tree) => r is Ok && final(self)@ == tree,
                Err(e) => r == Err::<(), ErrorKind>(e) && final(self)@ == old(self)@,
            },
    {
        match self.resolve_path(name) {
            Ok(target) => {
                self.current_dir = target;
                proof {
                    assert(self@.nodes =~= old(self)@.nodes);
                }
                Ok(())
            },
            Err(e) => Err(e),
        }
    }

    /// The size of the subtree under `node`, walked anew at each call. The
    /// sum must fit 64 bits.
    pub fn size_of(&self, node: NodeRef) -> (r: u64)
        requires
            self.wf(),
            self@.contains(node as int),
            self@.size_of(node as int) <= u64::MAX,
        ensures
            r == self@.size_of(node as int),
        decreases self@.nodes.len() - node,
    {
        match &self.nodes[node].node_type {
            NodeType::File { size } => *size,
            NodeType::Directory { children } => {
                let mut total: u64 = 0;
                let mut k: usize = 0;
                while k < children.len()
                    invariant
                        self.wf(),
                        self@.contains(node as int),
                        children@ == self@.children(node as int),
                        children_size(self@.nodes, node as int, children@.len()) <= u64::MAX,
                        k <= children.len(),
                        total == children_size(self@.nodes, node as int, k as nat),
                    decreases children.len() - k,
                {
                    let c = children[k];
                    proof {
                        assert(self@.children(node as int)[k as int] == c);
                        lemma_children_size_grows(
                            self@.nodes,
                            node as int,
                            (k + 1) as nat,
                            children@.len(),
                        );
                    }
                    let s = self.size_of(c);
                    total = total + s;
                    k += 1;
                }
                total
            },
        }
    }

    /// The size of the subtree under `node`, or `None` where the sum does
    /// not fit 64 bits.
    pub fn checked_size_of(&self, node: NodeRef) -> (r: Option<u64>)
        requires
            self.wf(),
            self@.contains(node as int),
        ensures
            match r {
                Some(size) => size == self@.size_of(node as int),
                None => self@.size_of(node as int) > u64::MAX,
            },
        decreases self@.nodes.len() - node,
    {
        match &self.nodes[node].node_type {
            NodeType::File { size } => Some(*size),
            NodeType::Directory { children } => {
                let mut total: u64 = 0;
                let mut k: usize = 0;
                while k < children.len()
                    invariant
                        self.wf(),
                        self@.contains(node as int),
                        children@ == self@.children(node as int),
                        self@.size_of(node as int) == children_size(
                            self@.nodes,
                            node as int,
                            children@.len(),
                        ),
                        k <= children.len(),
                        total == children_size(self@.nodes, node as int, k as nat),
                    decreases children.len() - k,
                {
                    let c = children[k];
                    proof {
                        assert(self@.children(node as int)[k as int] == c);
                        lemma_children_size_grows(
                            self@.nodes,
                            node as int,
                            (k + 1) as nat,
                            children@.len(),
                        );
                    }
                    let part = match self.checked_size_of(c) {
                        Some(size) => total.checked_add(size),
                        None => None,
                    };
                    match part {
                        Some(sum) => {
                            total = sum;
                        },
                        None => {
                            return None;
                        },
                    }
                    k += 1;
                }
                Some(total)
            },
        }
    }

    /// The size of the whole tree. The sum must fit 64 bits.
    pub fn get_size(&self) -> (r: u64)
        requires
            self.wf(),
            self@.size_of(0) <= u64::MAX,
        ensures
            r == self@.size_of(0),
    {
        self.size_of(0)
    }
}

} // verus!
