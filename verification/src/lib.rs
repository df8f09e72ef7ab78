//! Storage core of a git-style version-control system: a content-addressable
//! object store, canonical object encodings, the binary index (staging area)
//! format, a tree-building algorithm over index entries, and reference
//! resolution for HEAD.

use vstd::prelude::*;


pub mod database;
pub mod digest;
pub mod hash;
pub mod head;
pub mod hex;
pub mod index;
pub mod lockfile;
pub mod object;
pub mod oid;
pub mod parse_util;
pub mod references;
pub mod repository;
pub mod utils;
pub mod write_utils;

pub use repository::Repository;
pub use utils::remove_last;
pub use utils::trim_whitespace;

verus! {

} // verus!
