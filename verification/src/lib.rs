//! An in-memory directory tree built from a shell-like command log, with
//! verified size aggregation.
//!
//! Nodes live in a flat arena owned by [`FileSystem`] and are addressed by
//! stable indices ([`NodeRef`]). A directory lists its children by index and
//! every node but the root records the index of its parent, so "owning" a
//! child means listing it, and the parent link is only another index.
//!
//! [`parse`] builds a tree from a log, [`FileSystem::get_size`] gives the
//! size of the whole tree and [`get_sizes`] the size of every directory.

pub mod filesystem;
pub mod laws;
pub mod node;
pub mod parser;
pub mod text;
pub mod tree;

pub use crate::filesystem::{ErrorKind, FileSystem};
pub use crate::node::{Node, NodeRef, NodeType};
pub use crate::parser::{classify, get_sizes, parse, Command};
