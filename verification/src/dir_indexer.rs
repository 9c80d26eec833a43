//! The indexer facade: validates the root and serves the eight views.
//!
//! An indexer owns the canonical absolute root path and the tree built
//! below it. Every view is recomputed from the tree on each call, so a
//! view is a pure function of the indexer's state: calling the same
//! operation twice without rebuilding yields the same collection.

use vstd::prelude::*;

use crate::dir_indexer_err::DirIndexerErr;
use crate::dir_node::ab2rl_of;
use crate::dir_node::lemma_listed_covers;
use crate::dir_node::lemma_listed_extends;
use crate::dir_node::lemma_listed_no_dup;
use crate::dir_node::lemma_models_listed;
use crate::dir_node::lemma_no_dup_split;
use crate::dir_node::ab2rl_views;
use crate::dir_node::abs_of;
use crate::dir_node::abs_views;
use crate::dir_node::rel_views;
use crate::dir_node::rl2ab_of;
use crate::dir_node::rl2ab_views;
use crate::dir_tree::DirTree;
use crate::fs_probe::FsProbe;
use crate::paths::AbsPath;
use crate::paths::RelPath;

verus! {

/// An index of one directory: its canonical absolute root path and
/// the tree of entries below it.
#[derive(Debug)]
pub struct DirIndexer {
    pub root_path_: AbsPath,
    pub root_tree_: DirTree,
}

impl DirIndexer {
    /// A well-formed indexer holds a well-formed tree.
    pub open spec fn wf(self) -> bool {
        self.root_tree_.wf()
    }

    /// The relative file paths the index lists.
    pub open spec fn rel_file_view(self) -> Seq<Seq<Seq<u8>>> {
        self.root_tree_.file_paths()
    }

    /// The relative directory paths the index lists (root excluded).
    pub open spec fn rel_dir_view(self) -> Seq<Seq<Seq<u8>>> {
        self.root_tree_.dir_paths()
    }

    /// Builds an indexer for the directory at `root_path`, already in
    /// canonical absolute form, from the filesystem's probe of it.
    ///
    /// Succeeds exactly when the probe shows a directory with a
    /// readable listing; an existing file or a missing entry is
    /// rejected as `NotDirNorExist`, and a directory whose own listing
    /// was denied as `LackPermission`. Failures below the root never
    /// fail the build: those subtrees are simply absent from every
    /// view.
    pub fn from(root_path: AbsPath, probe: &FsProbe) -> (r: Result<DirIndexer, DirIndexerErr>)
        ensures
            probe is Dir ==> (r matches Ok(idx) && idx.root_path_ == root_path
                && idx.root_tree_.root_node_.models(Seq::<Seq<u8>>::empty(), *probe)),
            probe is Dir && probe.wf() ==> r->Ok_0.wf(),
            probe is Dir ==> r->Ok_0.rel_file_view() == probe.listed(
                Seq::<Seq<u8>>::empty(),
                false,
            ),
            probe is Dir ==> r->Ok_0.rel_dir_view() == probe.listed(
                Seq::<Seq<u8>>::empty(),
                true,
            ).drop_first(),
            probe is DirDenied ==> r == Result::<DirIndexer, DirIndexerErr>::Err(
                DirIndexerErr::LackPermission(root_path),
            ),
            !(probe is Dir) && !(probe is DirDenied) ==> r == Result::<
                DirIndexer,
                DirIndexerErr,
            >::Err(DirIndexerErr::NotDirNorExist(root_path)),
    {
        match probe {
            FsProbe::Dir(_) => {
                let dir_tree = DirTree::from(&root_path, probe);
                let indexer = DirIndexer { root_path_: root_path, root_tree_: dir_tree };
                proof {
                    lemma_models_listed(
                        indexer.root_tree_.root_node_,
                        Seq::<Seq<u8>>::empty(),
                        *probe,
                        false,
                    );
                    lemma_models_listed(
                        indexer.root_tree_.root_node_,
                        Seq::<Seq<u8>>::empty(),
                        *probe,
                        true,
                    );
                }
                Ok(indexer)
            },
            FsProbe::DirDenied => Err(DirIndexerErr::LackPermission(root_path)),
            _ => Err(DirIndexerErr::NotDirNorExist(root_path)),
        }
    }

    /// The set of relative file paths, as a duplicate-free listing.
    pub fn get_relative_file_paths_set(&self) -> (r: Vec<RelPath>)
        ensures
            rel_views(r@) == self.rel_file_view(),
    {
        self.root_tree_.get_relative_file_paths(&self.root_path_)
    }

    /// The set of relative directory paths (root excluded).
    pub fn get_relative_dir_paths_set(&self) -> (r: Vec<RelPath>)
        ensures
            rel_views(r@) == self.rel_dir_view(),
    {
        self.root_tree_.get_relative_dir_paths(&self.root_path_)
    }

    /// The set of absolute file paths.
    pub fn get_absolute_file_paths_set(&self) -> (r: Vec<AbsPath>)
        ensures
            abs_views(r@) == abs_of(self.root_path_@, self.rel_file_view()),
    {
        self.root_tree_.get_absolute_file_paths(&self.root_path_)
    }

    /// The set of absolute directory paths (root excluded).
    pub fn get_absolute_dir_paths_set(&self) -> (r: Vec<AbsPath>)
        ensures
            abs_views(r@) == abs_of(self.root_path_@, self.rel_dir_view()),
    {
        self.root_tree_.get_absolute_dir_paths(&self.root_path_)
    }

    /// The relative-to-absolute mapping for files.
    pub fn get_rl2ab_file_paths_map(&self) -> (r: Vec<(RelPath, AbsPath)>)
        ensures
            rl2ab_views(r@) == rl2ab_of(self.root_path_@, self.rel_file_view()),
    {
        self.root_tree_.get_rl2ab_file_paths(&self.root_path_)
    }

    /// The relative-to-absolute mapping for directories (root
    /// excluded).
    pub fn get_rl2ab_dir_paths_map(&self) -> (r: Vec<(RelPath, AbsPath)>)
        ensures
            rl2ab_views(r@) == rl2ab_of(self.root_path_@, self.rel_dir_view()),
    {
        self.root_tree_.get_rl2ab_dir_paths(&self.root_path_)
    }

    /// The absolute-to-relative mapping for files.
    pub fn get_ab2rl_file_paths_map(&self) -> (r: Vec<(AbsPath, RelPath)>)
        ensures
            ab2rl_views(r@) == ab2rl_of(self.root_path_@, self.rel_file_view()),
    {
        self.root_tree_.get_ab2rl_file_paths(&self.root_path_)
    }

    /// The absolute-to-relative mapping for directories (root
    /// excluded).
    pub fn get_ab2rl_dir_paths_map(&self) -> (r: Vec<(AbsPath, RelPath)>)
        ensures
            ab2rl_views(r@) == ab2rl_of(self.root_path_@, self.rel_dir_view()),
    {
        self.root_tree_.get_ab2rl_dir_paths(&self.root_path_)
    }
}

/// Law (partition): in a well-formed index the relative file view and
/// the relative directory view hold no duplicates, share no path, and
/// together name exactly the entries of the full recursive listing of
/// the tree — every entry but the root's own empty path, which stands
/// in neither view.
pub proof fn lemma_views_partition(idx: DirIndexer)
    requires
        idx.wf(),
    ensures
        idx.rel_file_view().no_duplicates(),
        idx.rel_dir_view().no_duplicates(),
        forall|p: Seq<Seq<u8>>|
            !(idx.rel_file_view().contains(p) && idx.rel_dir_view().contains(p)),
        idx.rel_file_view().to_set().union(idx.rel_dir_view().to_set())
            == idx.root_tree_.root_node_.all_paths().to_set().remove(Seq::<Seq<u8>>::empty()),
{
    let n = idx.root_tree_.root_node_;
    let f = n.listed_paths(false);
    let t = n.listed_paths(true);
    let d = idx.rel_dir_view();
    lemma_listed_no_dup(n);
    lemma_listed_covers(n);
    lemma_listed_extends(n, false);
    lemma_listed_extends(n, true);
    lemma_no_dup_split(f, t);
    assert(d == t.drop_first());
    assert(t[0] == Seq::<Seq<u8>>::empty());
    assert forall|i: int, j: int|
        0 <= i < d.len() && 0 <= j < d.len() && i != j implies d[i] != d[j] by {
        assert(d[i] == t[i + 1]);
        assert(d[j] == t[j + 1]);
    }
    assert forall|p: Seq<Seq<u8>>|
        !(idx.rel_file_view().contains(p) && #[trigger] idx.rel_dir_view().contains(p)) by {
        if idx.rel_file_view().contains(p) && idx.rel_dir_view().contains(p) {
            let i = choose|i: int| 0 <= i < f.len() && f[i] == p;
            let j = choose|j: int| 0 <= j < d.len() && d[j] == p;
            assert(d[j] == t[j + 1]);
            assert(f[i] != t[j + 1]);
        }
    }
    assert forall|p: Seq<Seq<u8>>| #[trigger]
        d.to_set().contains(p) implies t.to_set().contains(p) && p.len() > 0 by {
        let j = choose|j: int| 0 <= j < d.len() && d[j] == p;
        assert(d[j] == t[j + 1]);
        assert(t.contains(p));
    }
    assert forall|p: Seq<Seq<u8>>|
        t.to_set().contains(p) && p != Seq::<Seq<u8>>::empty() implies d.to_set().contains(
        p,
    ) by {
        let j = choose|j: int| 0 <= j < t.len() && t[j] == p;
        if j == 0 {
            assert(p == Seq::<Seq<u8>>::empty());
        } else {
            assert(d[j - 1] == t[j]);
            assert(d.contains(p));
        }
    }
    assert forall|p: Seq<Seq<u8>>| #[trigger] f.to_set().contains(p) implies p.len() > 0 by {
        let i = choose|i: int| 0 <= i < f.len() && f[i] == p;
    }
    assert(idx.rel_file_view().to_set().union(idx.rel_dir_view().to_set())
        =~= idx.root_tree_.root_node_.all_paths().to_set().remove(Seq::<Seq<u8>>::empty()));
}

/// Law (round trip): in a well-formed index, every map pairs the i-th
/// relative file path with exactly its resolution against the root,
/// the absolute file view holds that resolution at the same position,
/// and both maps are keyed without collision — so resolving a listed
/// relative path and mapping the result back yields the same path.
pub proof fn lemma_file_paths_round_trip(idx: DirIndexer)
    requires
        idx.wf(),
    ensures
        forall|i: int|
            0 <= i < idx.rel_file_view().len() ==> (#[trigger] rl2ab_of(
                idx.root_path_@,
                idx.rel_file_view(),
            )[i]) == (idx.rel_file_view()[i], idx.root_path_@ + idx.rel_file_view()[i]),
        forall|i: int|
            0 <= i < idx.rel_file_view().len() ==> (#[trigger] ab2rl_of(
                idx.root_path_@,
                idx.rel_file_view(),
            )[i]) == (idx.root_path_@ + idx.rel_file_view()[i], idx.rel_file_view()[i]),
        forall|i: int|
            0 <= i < idx.rel_file_view().len() ==> (#[trigger] abs_of(
                idx.root_path_@,
                idx.rel_file_view(),
            )[i]) == idx.root_path_@ + idx.rel_file_view()[i],
        forall|i: int, j: int|
            0 <= i < j < idx.rel_file_view().len() ==> rl2ab_of(
                idx.root_path_@,
                idx.rel_file_view(),
            )[i].0 != rl2ab_of(idx.root_path_@, idx.rel_file_view())[j].0,
        forall|i: int, j: int|
            0 <= i < j < idx.rel_file_view().len() ==> ab2rl_of(
                idx.root_path_@,
                idx.rel_file_view(),
            )[i].0 != ab2rl_of(idx.root_path_@, idx.rel_file_view())[j].0,
{
    let root = idx.root_path_@;
    let v = idx.rel_file_view();
    let n = idx.root_tree_.root_node_;
    lemma_listed_no_dup(n);
    lemma_no_dup_split(n.listed_paths(false), n.listed_paths(true));
    assert forall|i: int, j: int|
        0 <= i < j < v.len() implies rl2ab_of(root, v)[i].0 != rl2ab_of(root, v)[j].0 by {
        assert(rl2ab_of(root, v)[i].0 == v[i]);
        assert(rl2ab_of(root, v)[j].0 == v[j]);
    }
    assert forall|i: int, j: int|
        0 <= i < j < v.len() implies ab2rl_of(root, v)[i].0 != ab2rl_of(root, v)[j].0 by {
        assert(ab2rl_of(root, v)[i].0 == root + v[i]);
        assert(ab2rl_of(root, v)[j].0 == root + v[j]);
        if root + v[i] == root + v[j] {
            assert(v[i] =~= v[j]) by {
                assert(v[i].len() == v[j].len());
                assert(forall|k: int|
                    0 <= k < v[i].len() ==> v[i][k] == (root + v[i])[root.len() + k] && v[j][k]
                        == (root + v[j])[root.len() + k]);
            }
        }
    }
}

} // verus!
