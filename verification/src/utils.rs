//! One-shot helpers: build an index for a root and return one view.
//!
//! Each helper builds a fresh [`DirIndexer`] from the root path and
//! the filesystem's probe of it, and hands back a single view. The
//! root must be a directory with a readable listing — exactly the
//! inputs on which building the indexer succeeds.

use vstd::prelude::*;

use crate::dir_indexer::DirIndexer;
use crate::dir_node::ab2rl_of;
use crate::dir_node::ab2rl_views;
use crate::dir_node::abs_of;
use crate::dir_node::abs_views;
use crate::dir_node::lemma_models_listed;
use crate::dir_node::rel_views;
use crate::dir_node::rl2ab_of;
use crate::dir_node::rl2ab_views;
use crate::fs_probe::FsProbe;
use crate::paths::AbsPath;
use crate::paths::RelPath;

verus! {

/// The set of relative file paths below the root.
pub fn get_relative_file_paths_set(root_path: AbsPath, probe: &FsProbe) -> (r: Vec<RelPath>)
    requires
        probe is Dir,
    ensures
        rel_views(r@) == probe.listed(Seq::<Seq<u8>>::empty(), false),
{
    let dir_idx = DirIndexer::from(root_path, probe).unwrap();
    let r = dir_idx.get_relative_file_paths_set();
    proof {
        lemma_models_listed(
            dir_idx.root_tree_.root_node_,
            Seq::<Seq<u8>>::empty(),
            *probe,
            false,
        );
    }
    r
}

/// The set of relative directory paths below the root (the root
/// itself excluded).
pub fn get_relative_dir_paths_set(root_path: AbsPath, probe: &FsProbe) -> (r: Vec<RelPath>)
    requires
        probe is Dir,
    ensures
        rel_views(r@) == probe.listed(Seq::<Seq<u8>>::empty(), true).drop_first(),
{
    let dir_idx = DirIndexer::from(root_path, probe).unwrap();
    let r = dir_idx.get_relative_dir_paths_set();
    proof {
        lemma_models_listed(dir_idx.root_tree_.root_node_, Seq::<Seq<u8>>::empty(), *probe, true);
    }
    r
}

/// The set of absolute file paths below the root.
pub fn get_absolute_file_paths_set(root_path: AbsPath, probe: &FsProbe) -> (r: Vec<AbsPath>)
    requires
        probe is Dir,
    ensures
        abs_views(r@) == abs_of(root_path@, probe.listed(Seq::<Seq<u8>>::empty(), false)),
{
    let dir_idx = DirIndexer::from(root_path, probe).unwrap();
    let r = dir_idx.get_absolute_file_paths_set();
    proof {
        lemma_models_listed(
            dir_idx.root_tree_.root_node_,
            Seq::<Seq<u8>>::empty(),
            *probe,
            false,
        );
    }
    r
}

/// The set of absolute directory paths below the root (the root
/// itself excluded).
pub fn get_absolute_dir_paths_set(root_path: AbsPath, probe: &FsProbe) -> (r: Vec<AbsPath>)
    requires
        probe is Dir,
    ensures
        abs_views(r@) == abs_of(
            root_path@,
            probe.listed(Seq::<Seq<u8>>::empty(), true).drop_first(),
        ),
{
    let dir_idx = DirIndexer::from(root_path, probe).unwrap();
    let r = dir_idx.get_absolute_dir_paths_set();
    proof {
        lemma_models_listed(dir_idx.root_tree_.root_node_, Seq::<Seq<u8>>::empty(), *probe, true);
    }
    r
}

/// The relative-to-absolute mapping for files below the root.
pub fn get_rl2ab_file_paths_map(root_path: AbsPath, probe: &FsProbe) -> (r: Vec<
    (RelPath, AbsPath),
>)
    requires
        probe is Dir,
    ensures
        rl2ab_views(r@) == rl2ab_of(root_path@, probe.listed(Seq::<Seq<u8>>::empty(), false)),
{
    let dir_idx = DirIndexer::from(root_path, probe).unwrap();
    let r = dir_idx.get_rl2ab_file_paths_map();
    proof {
        lemma_models_listed(
            dir_idx.root_tree_.root_node_,
            Seq::<Seq<u8>>::empty(),
            *probe,
            false,
        );
    }
    r
}

/// The relative-to-absolute mapping for directories below the root
/// (the root itself excluded).
pub fn get_rl2ab_dir_paths_map(root_path: AbsPath, probe: &FsProbe) -> (r: Vec<(RelPath, AbsPath)>)
    requires
        probe is Dir,
    ensures
        rl2ab_views(r@) == rl2ab_of(
            root_path@,
            probe.listed(Seq::<Seq<u8>>::empty(), true).drop_first(),
        ),
{
    let dir_idx = DirIndexer::from(root_path, probe).unwrap();
    let r = dir_idx.get_rl2ab_dir_paths_map();
    proof {
        lemma_models_listed(dir_idx.root_tree_.root_node_, Seq::<Seq<u8>>::empty(), *probe, true);
    }
    r
}

/// The absolute-to-relative mapping for files below the root.
pub fn get_ab2rl_file_paths_map(root_path: AbsPath, probe: &FsProbe) -> (r: Vec<
    (AbsPath, RelPath),
>)
    requires
        probe is Dir,
    ensures
        ab2rl_views(r@) == ab2rl_of(root_path@, probe.listed(Seq::<Seq<u8>>::empty(), false)),
{
    let dir_idx = DirIndexer::from(root_path, probe).unwrap();
    let r = dir_idx.get_ab2rl_file_paths_map();
    proof {
        lemma_models_listed(
            dir_idx.root_tree_.root_node_,
            Seq::<Seq<u8>>::empty(),
            *probe,
            false,
        );
    }
    r
}

/// The absolute-to-relative mapping for directories below the root
/// (the root itself excluded).
pub fn get_ab2rl_dir_paths_map(root_path: AbsPath, probe: &FsProbe) -> (r: Vec<(AbsPath, RelPath)>)
    requires
        probe is Dir,
    ensures
        ab2rl_views(r@) == ab2rl_of(
            root_path@,
            probe.listed(Seq::<Seq<u8>>::empty(), true).drop_first(),
        ),
{
    let dir_idx = DirIndexer::from(root_path, probe).unwrap();
    let r = dir_idx.get_ab2rl_dir_paths_map();
    proof {
        lemma_models_listed(dir_idx.root_tree_.root_node_, Seq::<Seq<u8>>::empty(), *probe, true);
    }
    r
}

} // verus!
