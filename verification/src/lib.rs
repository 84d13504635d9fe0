//! A verified core for a directory-inventory tool: walking a filesystem
//! tree while pruning excluded subtrees, and reporting, for every regular
//! file found, its last-modification time (epoch seconds) and the MD5
//! digest of its content as a lowercase hex string.
//!
//! The filesystem itself is reached from unverified driver code; this
//! library holds the decisions: which paths are skipped, how a tree is
//! walked, what each file's processing yields, and how digests are
//! computed and rendered.

pub mod digest;
pub mod fs_model;
pub mod hex;
pub mod laws;
pub mod path;
pub mod pipeline;
pub mod walk;

pub use path::FsPath;
