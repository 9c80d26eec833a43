//! The tree facade: owns the root node and derives the path views.
//!
//! Every view is computed fresh by one traversal of the node tree. The
//! directory views leave the root itself out: the root's own identity
//! is the empty relative path, and the views name only the proper
//! entries below it (an empty directory therefore has empty file views
//! and empty directory views).

use vstd::prelude::*;

use crate::dir_node::ab2rl_of;
use crate::dir_node::ab2rl_views;
use crate::dir_node::abs_of;
use crate::dir_node::abs_views;
use crate::dir_node::rel_views;
use crate::dir_node::rl2ab_of;
use crate::dir_node::rl2ab_views;
use crate::dir_node::DirNode;
use crate::fs_probe::FsProbe;
use crate::paths::AbsPath;
use crate::paths::RelPath;

verus! {

/// A directory tree: the root node of one indexed hierarchy.
#[derive(Debug)]
pub struct DirTree {
    pub root_node_: DirNode,
}

impl DirTree {
    /// A tree is well-formed when its root is a well-formed directory
    /// node whose relative path is empty.
    pub open spec fn wf(self) -> bool {
        &&& self.root_node_.wf()
        &&& self.root_node_.is_dir_
        &&& self.root_node_.entry_@ == Seq::<Seq<u8>>::empty()
    }

    /// The relative paths of the files the tree lists, in depth-first
    /// order.
    pub open spec fn file_paths(self) -> Seq<Seq<Seq<u8>>> {
        self.root_node_.listed_paths(false)
    }

    /// The relative paths of the directories the tree lists, in
    /// depth-first order, the root itself excluded.
    pub open spec fn dir_paths(self) -> Seq<Seq<Seq<u8>>> {
        if self.root_node_.is_dir_ {
            self.root_node_.listed_paths(true).drop_first()
        } else {
            Seq::<Seq<Seq<u8>>>::empty()
        }
    }

    /// Builds the tree rooted at `ab_path` from the filesystem's
    /// probe. The root itself is assumed valid — a directory with a
    /// readable listing — since the indexer checks that before
    /// building.
    pub fn from(ab_path: &AbsPath, probe: &FsProbe) -> (r: DirTree)
        requires
            probe is Dir,
        ensures
            r.root_node_.models(Seq::<Seq<u8>>::empty(), *probe),
            probe.wf() ==> r.wf(),
    {
        let relative_start = RelPath::empty();
        let node = DirNode::from(ab_path, &relative_start, probe).unwrap();
        DirTree { root_node_: node }
    }

    /// The relative path of every file, one traversal.
    pub fn get_relative_file_paths(&self, _root_path: &AbsPath) -> (r: Vec<RelPath>)
        ensures
            rel_views(r@) == self.file_paths(),
    {
        let mut path_set: Vec<RelPath> = Vec::new();
        self.root_node_.add_rl_file_path(&mut path_set);
        proof {
            assert(rel_views(path_set@) =~= self.file_paths());
        }
        path_set
    }

    /// The relative path of every directory below the root, one
    /// traversal.
    pub fn get_relative_dir_paths(&self, _root_path: &AbsPath) -> (r: Vec<RelPath>)
        ensures
            rel_views(r@) == self.dir_paths(),
    {
        let mut path_set: Vec<RelPath> = Vec::new();
        self.root_node_.add_rl_dir_path(&mut path_set);
        if self.root_node_.is_dir_ {
            // The traversal lists the root's own entry first; the view
            // excludes the root.
            let _own = path_set.remove(0);
            proof {
                assert(rel_views(path_set@) =~= self.dir_paths());
            }
        } else {
            proof {
                assert(rel_views(path_set@) =~= self.dir_paths());
            }
        }
        path_set
    }

    /// The absolute path of every file, one traversal.
    pub fn get_absolute_file_paths(&self, root_path: &AbsPath) -> (r: Vec<AbsPath>)
        ensures
            abs_views(r@) == abs_of(root_path@, self.file_paths()),
    {
        let mut path_set: Vec<AbsPath> = Vec::new();
        self.root_node_.add_ab_file_path(root_path, &mut path_set);
        proof {
            assert(abs_views(path_set@) =~= abs_of(root_path@, self.file_paths()));
        }
        path_set
    }

    /// The absolute path of every directory below the root, one
    /// traversal.
    pub fn get_absolute_dir_paths(&self, root_path: &AbsPath) -> (r: Vec<AbsPath>)
        ensures
            abs_views(r@) == abs_of(root_path@, self.dir_paths()),
    {
        let mut path_set: Vec<AbsPath> = Vec::new();
        self.root_node_.add_ab_dir_path(root_path, &mut path_set);
        if self.root_node_.is_dir_ {
            let ghost whole = path_set@;
            let _own = path_set.remove(0);
            proof {
                let listed = self.root_node_.listed_paths(true);
                assert forall|k: int| 0 <= k < path_set@.len() implies abs_views(path_set@)[k] == abs_of(
                    root_path@,
                    self.dir_paths(),
                )[k] by {
                    assert(path_set@[k] == whole[k + 1]);
                    assert(abs_views(whole)[k + 1] == abs_of(root_path@, listed)[k + 1]);
                    assert(self.dir_paths()[k] == listed[k + 1]);
                }
                assert(abs_views(path_set@) =~= abs_of(root_path@, self.dir_paths()));
            }
        } else {
            proof {
                assert(abs_views(path_set@) =~= abs_of(root_path@, self.dir_paths()));
            }
        }
        path_set
    }

    /// Relative to absolute path, for every file.
    pub fn get_rl2ab_file_paths(&self, root_path: &AbsPath) -> (r: Vec<(RelPath, AbsPath)>)
        ensures
            rl2ab_views(r@) == rl2ab_of(root_path@, self.file_paths()),
    {
        let mut path_map: Vec<(RelPath, AbsPath)> = Vec::new();
        self.root_node_.map_rl2ab_file_path(root_path, &mut path_map);
        proof {
            assert(rl2ab_views(path_map@) =~= rl2ab_of(root_path@, self.file_paths()));
        }
        path_map
    }

    /// Relative to absolute path, for every directory below the root.
    pub fn get_rl2ab_dir_paths(&self, root_path: &AbsPath) -> (r: Vec<(RelPath, AbsPath)>)
        ensures
            rl2ab_views(r@) == rl2ab_of(root_path@, self.dir_paths()),
    {
        let mut path_map: Vec<(RelPath, AbsPath)> = Vec::new();
        self.root_node_.map_rl2ab_dir_path(root_path, &mut path_map);
        if self.root_node_.is_dir_ {
            let ghost whole = path_map@;
            let _own = path_map.remove(0);
            proof {
                let listed = self.root_node_.listed_paths(true);
                assert forall|k: int| 0 <= k < path_map@.len() implies rl2ab_views(path_map@)[k] == rl2ab_of(
                    root_path@,
                    self.dir_paths(),
                )[k] by {
                    assert(path_map@[k] == whole[k + 1]);
                    assert(rl2ab_views(whole)[k + 1] == rl2ab_of(root_path@, listed)[k + 1]);
                    assert(self.dir_paths()[k] == listed[k + 1]);
                }
                assert(rl2ab_views(path_map@) =~= rl2ab_of(root_path@, self.dir_paths()));
            }
        } else {
            proof {
                assert(rl2ab_views(path_map@) =~= rl2ab_of(root_path@, self.dir_paths()));
            }
        }
        path_map
    }

    /// Absolute to relative path, for every file.
    pub fn get_ab2rl_file_paths(&self, root_path: &AbsPath) -> (r: Vec<(AbsPath, RelPath)>)
        ensures
            ab2rl_views(r@) == ab2rl_of(root_path@, self.file_paths()),
    {
        let mut path_map: Vec<(AbsPath, RelPath)> = Vec::new();
        self.root_node_.map_ab2rl_file_path(root_path, &mut path_map);
        proof {
            assert(ab2rl_views(path_map@) =~= ab2rl_of(root_path@, self.file_paths()));
        }
        path_map
    }

    /// Absolute to relative path, for every directory below the root.
    pub fn get_ab2rl_dir_paths(&self, root_path: &AbsPath) -> (r: Vec<(AbsPath, RelPath)>)
        ensures
            ab2rl_views(r@) == ab2rl_of(root_path@, self.dir_paths()),
    {
        let mut path_map: Vec<(AbsPath, RelPath)> = Vec::new();
        self.root_node_.map_ab2rl_dir_path(root_path, &mut path_map);
        if self.root_node_.is_dir_ {
            let ghost whole = path_map@;
            let _own = path_map.remove(0);
            proof {
                let listed = self.root_node_.listed_paths(true);
                assert forall|k: int| 0 <= k < path_map@.len() implies ab2rl_views(path_map@)[k] == ab2rl_of(
                    root_path@,
                    self.dir_paths(),
                )[k] by {
                    assert(path_map@[k] == whole[k + 1]);
                    assert(ab2rl_views(whole)[k + 1] == ab2rl_of(root_path@, listed)[k + 1]);
                    assert(self.dir_paths()[k] == listed[k + 1]);
                }
                assert(ab2rl_views(path_map@) =~= ab2rl_of(root_path@, self.dir_paths()));
            }
        } else {
            proof {
                assert(ab2rl_views(path_map@) =~= ab2rl_of(root_path@, self.dir_paths()));
            }
        }
        path_map
    }
}

} // verus!
