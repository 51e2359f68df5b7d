//! Extracts embedded file contents from a Markdown document tree.
//!
//! Fenced code blocks whose info string carries a `file:` directive name a
//! destination path; the library collects their text into an
//! insertion-ordered map from destination path to accumulated content, and
//! resolves each destination against an output directory while rejecting
//! absolute paths.

pub mod collect;
pub mod directive;
pub mod filemap;
pub mod paths;
pub mod tree;
