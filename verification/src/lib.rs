//! A hierarchical, path-addressed reactive tree.
//!
//! The library parses an indentation-based text format describing a tree of
//! named nodes, resolves the pull bindings declared between paths, and, when
//! an event arrives at a path, propagates the new value to every transitive
//! dependent, grouping the updated sink-annotated paths by handler name.
//! Adapter objects sit behind type-erased, lock-guarded handles and are only
//! ever reached through the capability traits; the tree itself stores handler
//! names, never handles.

pub mod errors;
pub mod util;
pub mod value;
pub mod tree;
pub mod groups;
pub mod propagate;
pub mod parse;
pub mod builder;
pub mod handles;
pub mod laws;

pub use crate::errors::Error;
pub use crate::value::Value;
pub use crate::tree::{Node, SubTree, Tree};
pub use crate::groups::EventGroups;
pub use crate::builder::TreeBuilder;
pub use crate::handles::{SinkRef, SourceRef, TreeSink, TreeSource};
