//! What holds of every tree: statements about the model, proved once.

use vstd::prelude::*;
use crate::node::{KindView, NodeRef, NodeView};
use crate::tree::{
    attached, children_size, directory_at, first_named, in_range, is_ancestor, node_size,
    nodes_wf, parent_name, root_name, sizes_sum, subtree_size, ErrorKind, TreeView,
};

verus! {

/// The sum over the first `k` children of a node, taken by index, is the sum
/// over the list of those children.
pub proof fn lemma_children_size_is_sum(nodes: Seq<NodeView>, i: int, k: nat)
    requires
        nodes_wf(nodes),
        in_range(nodes, i),
        k <= nodes[i].children().len(),
    ensures
        children_size(nodes, i, k) == sizes_sum(nodes, nodes[i].children().take(k as int)),
    decreases k,
{
    let children = nodes[i].children();
    if k > 0 {
        lemma_children_size_is_sum(nodes, i, (k - 1) as nat);
        assert(children.take(k as int).drop_last() =~= children.take(k - 1));
        assert(children.take(k as int).last() == children[k - 1]);
        assert(i < children[k - 1] < nodes.len());
    }
}

/// The sum over a list of nodes is at least the sum over any of its
/// prefixes.
pub proof fn lemma_sizes_sum_grows(nodes: Seq<NodeView>, refs: Seq<NodeRef>, k: int)
    requires
        0 <= k <= refs.len(),
    ensures
        sizes_sum(nodes, refs.take(k)) <= sizes_sum(nodes, refs),
    decreases refs.len(),
{
    if k < refs.len() {
        lemma_sizes_sum_grows(nodes, refs.drop_last(), k);
        assert(refs.drop_last().take(k) =~= refs.take(k));
    } else {
        assert(refs.take(k) =~= refs);
    }
}

/// The size of a directory of the tree is the sum of the sizes of its
/// children, and the size of a file is the size declared for it.
pub proof fn size_is_sum_of_children(nodes: Seq<NodeView>, i: int)
    requires
        nodes_wf(nodes),
        in_range(nodes, i),
    ensures
        subtree_size(nodes, i) == node_size(nodes, nodes[i]),
        nodes[i].kind matches KindView::Directory { children } ==> subtree_size(nodes, i)
            == sizes_sum(nodes, children),
        nodes[i].kind matches KindView::File { size } ==> subtree_size(nodes, i) == size,
{
    let children = nodes[i].children();
    lemma_children_size_is_sum(nodes, i, children.len());
    assert(children.take(children.len() as int) =~= children);
}

/// A directory that was just created has size 0: the root of a fresh tree,
/// and a directory right after it was attached.
pub proof fn new_directory_has_size_zero(nodes: Seq<NodeView>, parent: NodeRef, name: Seq<char>)
    requires
        nodes_wf(nodes),
        directory_at(nodes, parent as int),
    ensures
        TreeView::fresh().size_of(0) == 0,
        subtree_size(
            attached(nodes, parent, name, KindView::Directory { children: Seq::empty() }),
            nodes.len() as int,
        ) == 0,
{
    let empty = KindView::Directory { children: Seq::empty() };
    let after = attached(nodes, parent, name, empty);
    assert(after[nodes.len() as int].children().len() == 0);
    assert(children_size(after, nodes.len() as int, 0) == 0);
    assert(TreeView::fresh().nodes[0].children().len() == 0);
    assert(children_size(TreeView::fresh().nodes, 0, 0) == 0);
}

/// Where no child from position `from` on has the name, none is found.
pub proof fn lemma_first_named_none(nodes: Seq<NodeView>, i: int, name: Seq<char>, from: int)
    requires
        0 <= from,
        forall|k: int|
            from <= k < nodes[i].children().len() ==> nodes[#[trigger] nodes[i].children()[k] as int].name
                != name,
    ensures
        first_named(nodes, i, name, from) is None,
    decreases nodes[i].children().len() - from,
{
    if from < nodes[i].children().len() {
        assert(nodes[nodes[i].children()[from] as int].name != name);
        lemma_first_named_none(nodes, i, name, from + 1);
    }
}

/// Where child `k` has the name and no child between `from` and `k` has it,
/// child `k` is found.
pub proof fn lemma_first_named_at(nodes: Seq<NodeView>, i: int, name: Seq<char>, from: int, k: int)
    requires
        0 <= from <= k < nodes[i].children().len(),
        nodes[nodes[i].children()[k] as int].name == name,
        forall|j: int| from <= j < k ==> nodes[#[trigger] nodes[i].children()[j] as int].name != name,
    ensures
        first_named(nodes, i, name, from) == Some(nodes[i].children()[k]),
    decreases k - from,
{
    if from < k {
        assert(nodes[nodes[i].children()[from] as int].name != name);
        lemma_first_named_at(nodes, i, name, from + 1, k);
    }
}

/// Changing to a name that no child of the current directory has, and that
/// is neither `/` nor `..`, fails with `NotFound`.
pub proof fn change_dir_to_missing_name(tree: TreeView, name: Seq<char>)
    requires
        tree.wf(),
        name != root_name(),
        name != parent_name(),
        forall|k: int|
            0 <= k < tree.nodes[tree.current as int].children().len()
                ==> tree.nodes[#[trigger] tree.nodes[tree.current as int].children()[k] as int].name
                != name,
    ensures
        tree.change_dir(name) == Err::<TreeView, ErrorKind>(ErrorKind::NotFound),
{
    lemma_first_named_none(tree.nodes, tree.current as int, name, 0);
}

/// Changing to a name, neither `/` nor `..`, whose first bearer among the
/// children of the current directory is a file fails with `NotADirectory`.
pub proof fn change_dir_to_file_name(tree: TreeView, name: Seq<char>, k: int)
    requires
        tree.wf(),
        name != root_name(),
        name != parent_name(),
        0 <= k < tree.nodes[tree.current as int].children().len(),
        tree.nodes[tree.nodes[tree.current as int].children()[k] as int].name == name,
        !tree.nodes[tree.nodes[tree.current as int].children()[k] as int].is_directory(),
        forall|j: int|
            0 <= j < k
                ==> tree.nodes[#[trigger] tree.nodes[tree.current as int].children()[j] as int].name
                != name,
    ensures
        tree.change_dir(name) == Err::<TreeView, ErrorKind>(ErrorKind::NotADirectory),
{
    lemma_first_named_at(tree.nodes, tree.current as int, name, 0, k);
}

/// Every node of a tree descends from the root: the chain of parents from
/// it ends at node 0. So does the current directory.
pub proof fn every_node_descends_from_root(nodes: Seq<NodeView>, i: int)
    requires
        nodes_wf(nodes),
        in_range(nodes, i),
    ensures
        is_ancestor(nodes, 0, i),
    decreases i,
{
    if i > 0 {
        every_node_descends_from_root(nodes, nodes[i].parent.unwrap() as int);
    }
}

/// Sizes depend on the nodes alone: trees with the same nodes give the same
/// sizes and reports, whichever directory is current.
pub proof fn sizes_depend_on_nodes_alone(a: TreeView, b: TreeView, i: int)
    requires
        a.nodes == b.nodes,
    ensures
        a.size_of(i) == b.size_of(i),
        a.sizes_of(i) == b.sizes_of(i),
{
}

/// Moving the current directory changes no size.
pub proof fn change_dir_keeps_sizes(tree: TreeView, name: Seq<char>, i: int)
    requires
        tree.change_dir(name) is Ok,
    ensures
        tree.change_dir(name).unwrap().size_of(i) == tree.size_of(i),
        tree.change_dir(name).unwrap().sizes_of(i) == tree.sizes_of(i),
{
}

/// An ancestor has no larger index than its descendant.
pub proof fn lemma_ancestor_is_earlier(nodes: Seq<NodeView>, a: int, i: int)
    requires
        is_ancestor(nodes, a, i),
    ensures
        a <= i,
    decreases i,
{
    if a != i {
        lemma_ancestor_is_earlier(nodes, a, nodes[i].parent.unwrap() as int);
    }
}

/// The parent of an ancestor of `p` is an ancestor of `p`.
pub proof fn lemma_parent_of_ancestor(nodes: Seq<NodeView>, c: int, p: int)
    requires
        nodes_wf(nodes),
        0 < c < nodes.len(),
        is_ancestor(nodes, c, p),
    ensures
        is_ancestor(nodes, nodes[c].parent.unwrap() as int, p),
    decreases p,
{
    let i = nodes[c].parent.unwrap() as int;
    if c == p {
        assert(is_ancestor(nodes, i, i));
    } else {
        lemma_parent_of_ancestor(nodes, c, nodes[p].parent.unwrap() as int);
    }
}

/// Two ancestors of `p` with the same parent are the same node.
pub proof fn lemma_one_child_on_path(nodes: Seq<NodeView>, c1: int, c2: int, p: int)
    requires
        nodes_wf(nodes),
        0 < c1 < nodes.len(),
        0 < c2 < nodes.len(),
        nodes[c1].parent == nodes[c2].parent,
        is_ancestor(nodes, c1, p),
        is_ancestor(nodes, c2, p),
    ensures
        c1 == c2,
    decreases p,
{
    if c1 == p && c2 != p {
        lemma_ancestor_is_earlier(nodes, c2, nodes[p].parent.unwrap() as int);
    } else if c2 == p && c1 != p {
        lemma_ancestor_is_earlier(nodes, c1, nodes[p].parent.unwrap() as int);
    } else if c1 != p {
        lemma_one_child_on_path(nodes, c1, c2, nodes[p].parent.unwrap() as int);
    }
}

/// A proper ancestor is a directory.
pub proof fn lemma_proper_ancestor_is_directory(nodes: Seq<NodeView>, a: int, p: int)
    requires
        nodes_wf(nodes),
        is_ancestor(nodes, a, p),
        a != p,
    ensures
        directory_at(nodes, a),
    decreases p,
{
    let up = nodes[p].parent.unwrap() as int;
    if a != up {
        lemma_proper_ancestor_is_directory(nodes, a, up);
    }
}

/// Whether one of the first `k` children of node `i` is an ancestor of `p`.
pub open spec fn leads_to(nodes: Seq<NodeView>, i: int, p: int, k: int) -> bool {
    exists|j: int| 0 <= j < k && is_ancestor(nodes, #[trigger] nodes[i].children()[j] as int, p)
}

/// A proper ancestor of `p` lists an ancestor of `p`.
pub proof fn lemma_path_goes_through_child(nodes: Seq<NodeView>, i: int, p: int)
    requires
        nodes_wf(nodes),
        is_ancestor(nodes, i, p),
        i != p,
    ensures
        leads_to(nodes, i, p, nodes[i].children().len() as int),
    decreases p,
{
    let up = nodes[p].parent.unwrap() as int;
    let children = nodes[i].children();
    if up == i {
        assert(children.contains(p as usize));
        let j = choose|j: int| 0 <= j < children.len() && children[j] == p as usize;
        assert(is_ancestor(nodes, children[j] as int, p));
    } else {
        lemma_path_goes_through_child(nodes, i, up);
        let j = choose|j: int|
            0 <= j < children.len() && is_ancestor(nodes, #[trigger] children[j] as int, up);
        assert(is_ancestor(nodes, children[j] as int, p));
    }
}

/// The size that a node of the given kind has when it is attached.
pub open spec fn own_size(kind: KindView) -> nat {
    match kind {
        KindView::File { size } => size as nat,
        KindView::Directory { .. } => 0,
    }
}

/// Attaching a file, or a directory without children, under directory
/// `parent` adds the size of the new node to `parent` and to each of its
/// ancestors, and changes the size of no other node.
pub proof fn attach_adds_size_to_ancestors(
    nodes: Seq<NodeView>,
    parent: NodeRef,
    name: Seq<char>,
    kind: KindView,
    i: int,
)
    requires
        nodes_wf(nodes),
        nodes.len() < usize::MAX,
        directory_at(nodes, parent as int),
        kind is Directory ==> kind->children.len() == 0,
        in_range(nodes, i),
    ensures
        subtree_size(attached(nodes, parent, name, kind), nodes.len() as int) == own_size(kind),
        subtree_size(attached(nodes, parent, name, kind), i) == subtree_size(nodes, i) + if is_ancestor(
            nodes,
            i,
            parent as int,
        ) {
            own_size(kind)
        } else {
            0
        },
    decreases nodes.len() - i, 1nat, 0nat,
{
    let t = attached(nodes, parent, name, kind);
    let n = nodes.len() as int;
    let count = nodes[i].children().len();
    assert(t[n].kind == kind);
    assert(children_size(t, n, 0) == 0);
    if !nodes[i].is_directory() {
        assert(t[i] == nodes[i]);
        if is_ancestor(nodes, i, parent as int) {
            lemma_proper_ancestor_is_directory(nodes, i, parent as int);
        }
    } else {
        lemma_attached_children_size(nodes, parent, name, kind, i, count);
        if i == parent {
            assert(t[i].children() == nodes[i].children().push(n as usize));
            assert(t[i].children()[count as int] == n as usize);
            assert(children_size(t, i, count + 1) == children_size(t, i, count) + subtree_size(
                t,
                n,
            ));
            if leads_to(nodes, i, parent as int, count as int) {
                let j = choose|j: int|
                    0 <= j < count && is_ancestor(
                        nodes,
                        #[trigger] nodes[i].children()[j] as int,
                        parent as int,
                    );
                lemma_ancestor_is_earlier(nodes, nodes[i].children()[j] as int, parent as int);
            }
        } else {
            assert(t[i] == nodes[i]);
            if leads_to(nodes, i, parent as int, count as int) {
                let j = choose|j: int|
                    0 <= j < count && is_ancestor(
                        nodes,
                        #[trigger] nodes[i].children()[j] as int,
                        parent as int,
                    );
                lemma_parent_of_ancestor(nodes, nodes[i].children()[j] as int, parent as int);
            }
            if is_ancestor(nodes, i, parent as int) {
                lemma_path_goes_through_child(nodes, i, parent as int);
            }
        }
    }
}

/// The sum over the first `k` children of node `i` after an attachment: the
/// sum before, and the size of the new node once if one of these children
/// leads to `parent`.
pub proof fn lemma_attached_children_size(
    nodes: Seq<NodeView>,
    parent: NodeRef,
    name: Seq<char>,
    kind: KindView,
    i: int,
    k: nat,
)
    requires
        nodes_wf(nodes),
        nodes.len() < usize::MAX,
        directory_at(nodes, parent as int),
        kind is Directory ==> kind->children.len() == 0,
        in_range(nodes, i),
        k <= nodes[i].children().len(),
    ensures
        children_size(attached(nodes, parent, name, kind), i, k) == children_size(nodes, i, k)
            + if leads_to(nodes, i, parent as int, k as int) {
            own_size(kind)
        } else {
            0
        },
    decreases nodes.len() - i, 0nat, k,
{
    let t = attached(nodes, parent, name, kind);
    let n = nodes.len() as int;
    let children = nodes[i].children();
    if k > 0 {
        let c = children[k - 1] as int;
        assert(i < c < nodes.len());
        assert(t[i].children()[k - 1] == children[k - 1]) by {
            if i == parent {
                assert(t[i].children() == children.push(n as usize));
            } else {
                assert(t[i] == nodes[i]);
            }
        }
        assert(k <= t[i].children().len()) by {
            if i == parent {
                assert(t[i].children() == children.push(n as usize));
            } else {
                assert(t[i] == nodes[i]);
            }
        }
        lemma_attached_children_size(nodes, parent, name, kind, i, (k - 1) as nat);
        attach_adds_size_to_ancestors(nodes, parent, name, kind, c);
        if leads_to(nodes, i, parent as int, k - 1) {
            let j = choose|j: int|
                0 <= j < k - 1 && is_ancestor(nodes, #[trigger] children[j] as int, parent as int);
            assert(leads_to(nodes, i, parent as int, k as int));
            if is_ancestor(nodes, c, parent as int) {
                lemma_one_child_on_path(nodes, children[j] as int, c, parent as int);
            }
        } else if is_ancestor(nodes, c, parent as int) {
            assert(is_ancestor(nodes, children[k - 1] as int, parent as int));
            assert(leads_to(nodes, i, parent as int, k as int));
        } else {
            if leads_to(nodes, i, parent as int, k as int) {
                let j = choose|j: int|
                    0 <= j < k && is_ancestor(nodes, #[trigger] children[j] as int, parent as int);
                assert(j < k - 1);
            }
        }
    }
}

/// Attaching a node adds its size to the size of the whole tree.
pub proof fn attach_adds_size_to_root(
    nodes: Seq<NodeView>,
    parent: NodeRef,
    name: Seq<char>,
    kind: KindView,
)
    requires
        nodes_wf(nodes),
        nodes.len() < usize::MAX,
        directory_at(nodes, parent as int),
        kind is Directory ==> kind->children.len() == 0,
    ensures
        subtree_size(attached(nodes, parent, name, kind), 0) == subtree_size(nodes, 0) + own_size(
            kind,
        ),
{
    every_node_descends_from_root(nodes, parent as int);
    attach_adds_size_to_ancestors(nodes, parent, name, kind, 0);
}

} // verus!
