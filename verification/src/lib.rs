//! Depth-bounded enumeration of directory subtrees with forbidden-prefix
//! pruning, together with a snapshot cache that is replaced atomically so
//! that readers never observe a half-written snapshot.

pub mod cache;
pub mod errors;
pub mod filter;
pub mod tree;
pub mod walk;
pub mod emit;
mod text;

pub use cache::{commit, commit_text, ensure_exists, get_cache_file_name, read_cache, refresh_cache, render, temp_path_for};
pub use errors::Error;
pub use tree::{DirTree, walk_tree};
pub use walk::{walk_dir, walk_dir_stdout, write_cache, write_std};
pub use filter::is_whitelisted;
