//! A verified directory-indexing library.
//!
//! Given the description of a directory tree reported by the filesystem
//! (a [`FsProbe`]), the library builds an in-memory tree of nodes and
//! derives path views from it: sets of relative and absolute paths and
//! mappings between the two, separately for files and for directories.
//!
//! The filesystem itself is outside the library: a caller probes it and
//! hands the result in as plain values, so every rule of the indexing
//! logic is verified.

pub mod dir_indexer;
pub mod dir_indexer_err;
pub mod dir_node;
pub mod dir_tree;
pub mod fs_probe;
pub mod paths;
pub mod utils;

pub use dir_indexer::DirIndexer;
pub use dir_indexer_err::DirIndexerErr;
pub use dir_node::DirNode;
pub use dir_tree::DirTree;
pub use fs_probe::FsChild;
pub use fs_probe::FsProbe;
pub use paths::AbsPath;
pub use paths::RelPath;
pub use utils::get_ab2rl_dir_paths_map;
pub use utils::get_ab2rl_file_paths_map;
pub use utils::get_absolute_dir_paths_set;
pub use utils::get_absolute_file_paths_set;
pub use utils::get_relative_dir_paths_set;
pub use utils::get_relative_file_paths_set;
pub use utils::get_rl2ab_dir_paths_map;
pub use utils::get_rl2ab_file_paths_map;
