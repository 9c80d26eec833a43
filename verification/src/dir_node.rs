//! The recursive directory-tree node and its construction.
//!
//! A [`DirNode`] mirrors one filesystem entry: its path relative to the
//! index root, whether it is a directory, and, if so, its child nodes.
//! Construction walks an [`FsProbe`] bottom-up: a child whose probe
//! fails (a denied directory, a vanished entry) is silently omitted, so
//! a partial tree is produced rather than none; only a failure at the
//! node itself is reported to the caller.

use vstd::prelude::*;

use crate::dir_indexer_err::DirIndexerErr;
use crate::fs_probe::FsChild;
use crate::fs_probe::FsProbe;
use crate::paths::AbsPath;
use crate::paths::RelPath;

verus! {

/// One entry of the indexed tree: a file, or a directory with its
/// children.
#[derive(Debug)]
pub struct DirNode {
    /// Path from the index root to this entry; empty for the root.
    pub entry_: RelPath,
    /// Whether this entry is a directory.
    pub is_dir_: bool,
    /// The children, in listing order; always empty for a file.
    pub child_entry_: Vec<DirNode>,
}

impl DirNode {
    /// Structural invariant: a file has no children, every child's
    /// relative path extends this node's path by exactly one segment,
    /// and no two children share a relative path.
    pub open spec fn wf(self) -> bool
        decreases self,
    {
        &&& (!self.is_dir_ ==> self.child_entry_@.len() == 0)
        &&& forall|i: int|
            0 <= i < self.child_entry_@.len() ==> (#[trigger] self.child_entry_@[i]).wf()
        &&& forall|i: int|
            0 <= i < self.child_entry_@.len() ==> (#[trigger] self.child_entry_@[i]).entry_@
                == self.entry_@.push(self.child_entry_@[i].entry_@.last())
        &&& forall|i: int, j: int|
            0 <= i < j < self.child_entry_@.len() ==> self.child_entry_@[i].entry_@
                != self.child_entry_@[j].entry_@
    }

    /// The relative paths a traversal of this subtree lists, in
    /// depth-first order: with `dirs` the directory entries (this node
    /// included, if it is one), without it the file entries.
    pub open spec fn listed_paths(self, dirs: bool) -> Seq<Seq<Seq<u8>>>
        decreases self,
    {
        if self.is_dir_ {
            (if dirs {
                seq![self.entry_@]
            } else {
                Seq::<Seq<Seq<u8>>>::empty()
            }) + Self::listed_paths_of(self.child_entry_@, dirs)
        } else {
            if dirs {
                Seq::<Seq<Seq<u8>>>::empty()
            } else {
                seq![self.entry_@]
            }
        }
    }

    /// The concatenation of `listed_paths` over a sequence of subtrees.
    pub open spec fn listed_paths_of(s: Seq<DirNode>, dirs: bool) -> Seq<Seq<Seq<u8>>>
        decreases s,
    {
        if s.len() == 0 {
            Seq::<Seq<Seq<u8>>>::empty()
        } else {
            Self::listed_paths_of(s.drop_last(), dirs) + s.last().listed_paths(dirs)
        }
    }

    /// How a node relates to the probe it was built from: exactly the
    /// shape that construction produces. A `File` probe gives a leaf; a
    /// `Dir` probe gives a directory node whose children are built from
    /// the listed children that themselves build, in listing order.
    pub open spec fn models(self, rl: Seq<Seq<u8>>, probe: FsProbe) -> bool
        decreases probe,
    {
        match probe {
            FsProbe::File => {
                &&& self.entry_@ == rl
                &&& !self.is_dir_
                &&& self.child_entry_@.len() == 0
            },
            FsProbe::Dir(es) => {
                &&& self.entry_@ == rl
                &&& self.is_dir_
                &&& Self::models_children(self.child_entry_@, rl, es@)
            },
            FsProbe::DirDenied => false,
            FsProbe::Missing => false,
        }
    }

    /// The children built from a listing: one node for each listed
    /// child whose probe builds, in order; the others are omitted.
    pub open spec fn models_children(cs: Seq<DirNode>, rl: Seq<Seq<u8>>, es: Seq<FsChild>) -> bool
        decreases es,
    {
        if es.len() == 0 {
            cs.len() == 0
        } else {
            let e = es.last();
            if e.probe.builds() {
                &&& cs.len() > 0
                &&& cs.last().models(rl.push(e.name@), e.probe)
                &&& Self::models_children(cs.drop_last(), rl, es.drop_last())
            } else {
                Self::models_children(cs, rl, es.drop_last())
            }
        }
    }

    /// Builds the node for the entry `rl_path` below `root_path`, from
    /// what the filesystem reported about it.
    ///
    /// A missing entry fails with `NotFileAndDir`; a directory whose
    /// listing was denied fails with `LackPermission`. A readable entry
    /// always builds, with every failing child omitted from the child
    /// set (partial trees are accepted; an unreadable subtree never
    /// aborts the whole index).
    #[verifier::loop_isolation(false)]
    pub fn from(root_path: &AbsPath, rl_path: &RelPath, probe: &FsProbe) -> (r: Result<
        DirNode,
        DirIndexerErr,
    >)
        ensures
            probe.builds() ==> r is Ok && r->Ok_0.models(rl_path@, *probe),
            probe.builds() && probe.wf() ==> r->Ok_0.wf(),
            probe is Missing ==> r == Result::<DirNode, DirIndexerErr>::Err(
                DirIndexerErr::NotFileAndDir,
            ),
            probe is DirDenied ==> (r matches Err(DirIndexerErr::LackPermission(p)) && p@
                == root_path@ + rl_path@),
        decreases probe,
    {
        match probe {
            FsProbe::Missing => Err(DirIndexerErr::NotFileAndDir),
            FsProbe::DirDenied => Err(DirIndexerErr::LackPermission(root_path.join_rel(rl_path))),
            FsProbe::File => Ok(
                DirNode { entry_: rl_path.clone(), is_dir_: false, child_entry_: Vec::new() },
            ),
            FsProbe::Dir(es) => {
                let mut children: Vec<DirNode> = Vec::new();
                let mut i: usize = 0;
                while i < es.len()
                    invariant
                        i <= es.len(),
                        Self::models_children(children@, rl_path@, es@.take(i as int)),
                    decreases es.len() - i,
                {
                    let child_rl = rl_path.join(&es[i].name);
                    let ghost prev = children@;
                    match Self::from(root_path, &child_rl, &es[i].probe) {
                        Ok(c) => {
                            children.push(c);
                        },
                        Err(_) => {},
                    }
                    i = i + 1;
                    proof {
                        assert(es@.take(i as int).drop_last() =~= es@.take(i - 1));
                        assert(es@.take(i as int).last() == es@[i - 1]);
                        if es@[i - 1].probe.builds() {
                            assert(children@.drop_last() =~= prev);
                        }
                    }
                }
                proof {
                    assert(es@.take(es@.len() as int) =~= es@);
                }
                let node = DirNode { entry_: rl_path.clone(), is_dir_: true, child_entry_: children };
                proof {
                    if probe.wf() {
                        lemma_models_wf(node, rl_path@, *probe);
                    }
                }
                Ok(node)
            },
        }
    }
}

/// The views of a collection of relative paths.
pub open spec fn rel_views(s: Seq<RelPath>) -> Seq<Seq<Seq<u8>>> {
    s.map_values(|p: RelPath| p@)
}

/// The views of a collection of absolute paths.
pub open spec fn abs_views(s: Seq<AbsPath>) -> Seq<Seq<Seq<u8>>> {
    s.map_values(|p: AbsPath| p@)
}

/// The views of relative-to-absolute path pairs.
pub open spec fn rl2ab_views(s: Seq<(RelPath, AbsPath)>) -> Seq<(Seq<Seq<u8>>, Seq<Seq<u8>>)> {
    s.map_values(|p: (RelPath, AbsPath)| (p.0@, p.1@))
}

/// The views of absolute-to-relative path pairs.
pub open spec fn ab2rl_views(s: Seq<(AbsPath, RelPath)>) -> Seq<(Seq<Seq<u8>>, Seq<Seq<u8>>)> {
    s.map_values(|p: (AbsPath, RelPath)| (p.0@, p.1@))
}

/// Each relative path resolved against the root.
pub open spec fn abs_of(root: Seq<Seq<u8>>, rels: Seq<Seq<Seq<u8>>>) -> Seq<Seq<Seq<u8>>> {
    rels.map_values(|p: Seq<Seq<u8>>| root + p)
}

/// Each relative path paired with its resolution against the root.
pub open spec fn rl2ab_of(root: Seq<Seq<u8>>, rels: Seq<Seq<Seq<u8>>>) -> Seq<
    (Seq<Seq<u8>>, Seq<Seq<u8>>),
> {
    rels.map_values(|p: Seq<Seq<u8>>| (p, root + p))
}

/// Each resolution against the root paired with its relative path.
pub open spec fn ab2rl_of(root: Seq<Seq<u8>>, rels: Seq<Seq<Seq<u8>>>) -> Seq<
    (Seq<Seq<u8>>, Seq<Seq<u8>>),
> {
    rels.map_values(|p: Seq<Seq<u8>>| (root + p, p))
}

/// Appends each relative path, resolved against the root, to `set`.
#[verifier::loop_isolation(false)]
fn append_abs(root_path: &AbsPath, rels: &Vec<RelPath>, set: &mut Vec<AbsPath>)
    ensures
        abs_views(final(set)@) == abs_views(old(set)@) + abs_of(root_path@, rel_views(rels@)),
{
    let ghost n0 = old(set)@.len() as int;
    let mut i: usize = 0;
    while i < rels.len()
        invariant
            i <= rels@.len(),
            set@.len() == n0 + i,
            forall|k: int| 0 <= k < n0 ==> set@[k] == old(set)@[k],
            forall|k: int| n0 <= k < set@.len() ==> (#[trigger] set@[k])@ == root_path@
                + rels@[k - n0]@,
        decreases rels@.len() - i,
    {
        set.push(root_path.join_rel(&rels[i]));
        i = i + 1;
    }
    proof {
        assert(abs_views(set@) =~= abs_views(old(set)@) + abs_of(root_path@, rel_views(rels@)));
    }
}

/// Appends each relative path paired with its resolution to `map`.
#[verifier::loop_isolation(false)]
fn append_rl2ab(root_path: &AbsPath, rels: &Vec<RelPath>, map: &mut Vec<(RelPath, AbsPath)>)
    ensures
        rl2ab_views(final(map)@) == rl2ab_views(old(map)@) + rl2ab_of(
            root_path@,
            rel_views(rels@),
        ),
{
    let ghost n0 = old(map)@.len() as int;
    let mut i: usize = 0;
    while i < rels.len()
        invariant
            i <= rels@.len(),
            map@.len() == n0 + i,
            forall|k: int| 0 <= k < n0 ==> map@[k] == old(map)@[k],
            forall|k: int| n0 <= k < map@.len() ==> (#[trigger] map@[k]).0@ == rels@[k - n0]@
                && map@[k].1@ == root_path@ + rels@[k - n0]@,
        decreases rels@.len() - i,
    {
        let ab = root_path.join_rel(&rels[i]);
        let rl = rels[i].clone();
        map.push((rl, ab));
        i = i + 1;
    }
    proof {
        assert(rl2ab_views(map@) =~= rl2ab_views(old(map)@) + rl2ab_of(
            root_path@,
            rel_views(rels@),
        ));
    }
}

/// Appends each resolution paired with its relative path to `map`.
#[verifier::loop_isolation(false)]
fn append_ab2rl(root_path: &AbsPath, rels: &Vec<RelPath>, map: &mut Vec<(AbsPath, RelPath)>)
    ensures
        ab2rl_views(final(map)@) == ab2rl_views(old(map)@) + ab2rl_of(
            root_path@,
            rel_views(rels@),
        ),
{
    let ghost n0 = old(map)@.len() as int;
    let mut i: usize = 0;
    while i < rels.len()
        invariant
            i <= rels@.len(),
            map@.len() == n0 + i,
            forall|k: int| 0 <= k < n0 ==> map@[k] == old(map)@[k],
            forall|k: int| n0 <= k < map@.len() ==> (#[trigger] map@[k]).0@ == root_path@
                + rels@[k - n0]@ && map@[k].1@ == rels@[k - n0]@,
        decreases rels@.len() - i,
    {
        let ab = root_path.join_rel(&rels[i]);
        let rl = rels[i].clone();
        map.push((ab, rl));
        i = i + 1;
    }
    proof {
        assert(ab2rl_views(map@) =~= ab2rl_views(old(map)@) + ab2rl_of(
            root_path@,
            rel_views(rels@),
        ));
    }
}

impl DirNode {
    /// Appends the relative paths this subtree lists — the directory
    /// entries with `dirs`, the file entries without — to `out`, in
    /// depth-first order.
    #[verifier::loop_isolation(false)]
    pub fn add_rl_paths(&self, dirs: bool, out: &mut Vec<RelPath>)
        ensures
            rel_views(final(out)@) == rel_views(old(out)@) + self.listed_paths(dirs),
        decreases self,
    {
        let ghost pre: Seq<Seq<Seq<u8>>> = if self.is_dir_ && dirs {
            seq![self.entry_@]
        } else {
            Seq::empty()
        };
        if self.is_dir_ {
            if dirs {
                out.push(self.entry_.clone());
                proof {
                    assert(rel_views(out@) =~= rel_views(old(out)@) + pre);
                }
            } else {
                proof {
                    assert(rel_views(out@) =~= rel_views(old(out)@) + pre);
                }
            }
            let mut i: usize = 0;
            while i < self.child_entry_.len()
                invariant
                    i <= self.child_entry_@.len(),
                    rel_views(out@) == rel_views(old(out)@) + pre + Self::listed_paths_of(
                        self.child_entry_@.take(i as int),
                        dirs,
                    ),
                decreases self.child_entry_@.len() - i,
            {
                self.child_entry_[i].add_rl_paths(dirs, out);
                i = i + 1;
                proof {
                    let t = self.child_entry_@.take(i as int);
                    assert(t.drop_last() =~= self.child_entry_@.take(i - 1));
                    assert(t.last() == self.child_entry_@[i - 1]);
                    assert(rel_views(out@) =~= rel_views(old(out)@) + pre
                        + Self::listed_paths_of(t, dirs));
                }
            }
            proof {
                assert(self.child_entry_@.take(self.child_entry_@.len() as int)
                    =~= self.child_entry_@);
                assert(rel_views(out@) =~= rel_views(old(out)@) + self.listed_paths(dirs));
            }
        } else {
            if !dirs {
                out.push(self.entry_.clone());
            }
            proof {
                assert(rel_views(out@) =~= rel_views(old(out)@) + self.listed_paths(dirs));
            }
        }
    }

    /// Appends the relative path of every file in this subtree to the
    /// accumulating collection.
    pub fn add_rl_file_path(&self, set: &mut Vec<RelPath>)
        ensures
            rel_views(final(set)@) == rel_views(old(set)@) + self.listed_paths(false),
    {
        self.add_rl_paths(false, set);
    }

    /// Appends the relative path of every directory in this subtree
    /// (this node included, if it is one) to the accumulating
    /// collection.
    pub fn add_rl_dir_path(&self, set: &mut Vec<RelPath>)
        ensures
            rel_views(final(set)@) == rel_views(old(set)@) + self.listed_paths(true),
    {
        self.add_rl_paths(true, set);
    }

    /// Appends the absolute path of every file in this subtree to the
    /// accumulating collection.
    pub fn add_ab_file_path(&self, root_path: &AbsPath, set: &mut Vec<AbsPath>)
        ensures
            abs_views(final(set)@) == abs_views(old(set)@) + abs_of(
                root_path@,
                self.listed_paths(false),
            ),
    {
        let mut rels: Vec<RelPath> = Vec::new();
        self.add_rl_paths(false, &mut rels);
        proof {
            assert(rel_views(rels@) =~= self.listed_paths(false));
        }
        append_abs(root_path, &rels, set);
    }

    /// Appends the absolute path of every directory in this subtree to
    /// the accumulating collection.
    pub fn add_ab_dir_path(&self, root_path: &AbsPath, set: &mut Vec<AbsPath>)
        ensures
            abs_views(final(set)@) == abs_views(old(set)@) + abs_of(
                root_path@,
                self.listed_paths(true),
            ),
    {
        let mut rels: Vec<RelPath> = Vec::new();
        self.add_rl_paths(true, &mut rels);
        proof {
            assert(rel_views(rels@) =~= self.listed_paths(true));
        }
        append_abs(root_path, &rels, set);
    }

    /// Appends a relative-to-absolute pair for every file in this
    /// subtree to the accumulating mapping.
    pub fn map_rl2ab_file_path(&self, root_path: &AbsPath, map: &mut Vec<(RelPath, AbsPath)>)
        ensures
            rl2ab_views(final(map)@) == rl2ab_views(old(map)@) + rl2ab_of(
                root_path@,
                self.listed_paths(false),
            ),
    {
        let mut rels: Vec<RelPath> = Vec::new();
        self.add_rl_paths(false, &mut rels);
        proof {
            assert(rel_views(rels@) =~= self.listed_paths(false));
        }
        append_rl2ab(root_path, &rels, map);
    }

    /// Appends a relative-to-absolute pair for every directory in this
    /// subtree to the accumulating mapping.
    pub fn map_rl2ab_dir_path(&self, root_path: &AbsPath, map: &mut Vec<(RelPath, AbsPath)>)
        ensures
            rl2ab_views(final(map)@) == rl2ab_views(old(map)@) + rl2ab_of(
                root_path@,
                self.listed_paths(true),
            ),
    {
        let mut rels: Vec<RelPath> = Vec::new();
        self.add_rl_paths(true, &mut rels);
        proof {
            assert(rel_views(rels@) =~= self.listed_paths(true));
        }
        append_rl2ab(root_path, &rels, map);
    }

    /// Appends an absolute-to-relative pair for every file in this
    /// subtree to the accumulating mapping.
    pub fn map_ab2rl_file_path(&self, root_path: &AbsPath, map: &mut Vec<(AbsPath, RelPath)>)
        ensures
            ab2rl_views(final(map)@) == ab2rl_views(old(map)@) + ab2rl_of(
                root_path@,
                self.listed_paths(false),
            ),
    {
        let mut rels: Vec<RelPath> = Vec::new();
        self.add_rl_paths(false, &mut rels);
        proof {
            assert(rel_views(rels@) =~= self.listed_paths(false));
        }
        append_ab2rl(root_path, &rels, map);
    }

    /// Appends an absolute-to-relative pair for every directory in
    /// this subtree to the accumulating mapping.
    pub fn map_ab2rl_dir_path(&self, root_path: &AbsPath, map: &mut Vec<(AbsPath, RelPath)>)
        ensures
            ab2rl_views(final(map)@) == ab2rl_views(old(map)@) + ab2rl_of(
                root_path@,
                self.listed_paths(true),
            ),
    {
        let mut rels: Vec<RelPath> = Vec::new();
        self.add_rl_paths(true, &mut rels);
        proof {
            assert(rel_views(rels@) =~= self.listed_paths(true));
        }
        append_ab2rl(root_path, &rels, map);
    }

    /// The relative path naming this node.
    pub fn relative_entry_name(self) -> (r: RelPath)
        ensures
            r@ == self.entry_@,
    {
        self.entry_
    }

    /// The absolute path naming this node: its relative path resolved
    /// against the index root.
    pub fn absolute_entry_name(self, root_path: AbsPath) -> (r: AbsPath)
        ensures
            r@ == root_path@ + self.entry_@,
    {
        root_path.join_rel(&self.entry_)
    }
}

/// `p` starts with the segments of `prefix`.
pub open spec fn extends_path(prefix: Seq<Seq<u8>>, p: Seq<Seq<u8>>) -> bool {
    p.len() >= prefix.len() && p.take(prefix.len() as int) == prefix
}

impl DirNode {
    /// The relative path of every entry of this subtree, this node
    /// included whatever its kind: the full recursive listing.
    pub open spec fn all_paths(self) -> Seq<Seq<Seq<u8>>>
        decreases self,
    {
        seq![self.entry_@] + Self::all_paths_of(self.child_entry_@)
    }

    /// The concatenation of `all_paths` over a sequence of subtrees.
    pub open spec fn all_paths_of(s: Seq<DirNode>) -> Seq<Seq<Seq<u8>>>
        decreases s,
    {
        if s.len() == 0 {
            Seq::<Seq<Seq<u8>>>::empty()
        } else {
            Self::all_paths_of(s.drop_last()) + s.last().all_paths()
        }
    }
}

/// Every path a well-formed subtree lists starts with the subtree's
/// own path; every listed path other than the node's own entry is
/// strictly longer than it.
pub(crate) proof fn lemma_listed_extends(n: DirNode, dirs: bool)
    requires
        n.wf(),
    ensures
        forall|k: int|
            0 <= k < n.listed_paths(dirs).len() ==> extends_path(
                n.entry_@,
                #[trigger] n.listed_paths(dirs)[k],
            ),
        !n.is_dir_ && dirs ==> n.listed_paths(dirs).len() == 0,
        !n.is_dir_ && !dirs ==> n.listed_paths(dirs) == seq![n.entry_@],
        n.is_dir_ && dirs ==> n.listed_paths(true).len() >= 1 && n.listed_paths(true)[0]
            == n.entry_@,
        n.is_dir_ ==> forall|k: int|
            (if dirs {
                1int
            } else {
                0int
            }) <= k < n.listed_paths(dirs).len() ==> (#[trigger] n.listed_paths(dirs)[k]).len()
                > n.entry_@.len(),
    decreases n,
{
    if n.is_dir_ {
        assert forall|i: int| 0 <= i < n.child_entry_@.len() implies (#[trigger] n.child_entry_@[
            i
        ]).entry_@.len() == n.entry_@.len() + 1 && n.child_entry_@[i].entry_@.take(
            n.entry_@.len() as int,
        ) == n.entry_@ by {
            assert(n.child_entry_@[i].entry_@ == n.entry_@.push(n.child_entry_@[i].entry_@.last()));
            assert(n.entry_@.push(n.child_entry_@[i].entry_@.last()).take(n.entry_@.len() as int)
                =~= n.entry_@);
        }
        lemma_listed_of_extends(n.child_entry_@, dirs, n.entry_@);
        let own: Seq<Seq<Seq<u8>>> = if dirs {
            seq![n.entry_@]
        } else {
            Seq::<Seq<Seq<u8>>>::empty()
        };
        let rest = DirNode::listed_paths_of(n.child_entry_@, dirs);
        assert(n.listed_paths(dirs) == own + rest);
        assert forall|k: int| 0 <= k < n.listed_paths(dirs).len() implies extends_path(
            n.entry_@,
            #[trigger] n.listed_paths(dirs)[k],
        ) by {
            if dirs && k == 0 {
                assert(n.listed_paths(dirs)[k] == n.entry_@);
                assert(n.entry_@.take(n.entry_@.len() as int) =~= n.entry_@);
            } else {
                let k0 = k - own.len();
                assert(n.listed_paths(dirs)[k] == rest[k0]);
            }
        }
    } else {
        assert(n.entry_@.take(n.entry_@.len() as int) =~= n.entry_@);
    }
}

/// `lemma_listed_extends` over the children of one directory whose
/// own path is `e`: everything listed below them is strictly longer
/// than `e`, starts with `e`, and starts with the entry of the child
/// it came from.
proof fn lemma_listed_of_extends(s: Seq<DirNode>, dirs: bool, e: Seq<Seq<u8>>)
    requires
        forall|i: int| 0 <= i < s.len() ==> (#[trigger] s[i]).wf(),
        forall|i: int|
            0 <= i < s.len() ==> (#[trigger] s[i]).entry_@.len() == e.len() + 1
                && s[i].entry_@.take(e.len() as int) == e,
    ensures
        forall|k: int|
            0 <= k < DirNode::listed_paths_of(s, dirs).len()
                ==> (#[trigger] DirNode::listed_paths_of(s, dirs)[k]).len() > e.len()
                && DirNode::listed_paths_of(s, dirs)[k].take(e.len() as int) == e,
        forall|k: int|
            0 <= k < DirNode::listed_paths_of(s, dirs).len() ==> exists|i: int|
                0 <= i < s.len() && extends_path(
                    s[i].entry_@,
                    #[trigger] DirNode::listed_paths_of(s, dirs)[k],
                ),
    decreases s,
{
    if s.len() > 0 {
        let front = s.drop_last();
        let c = s.last();
        lemma_listed_of_extends(front, dirs, e);
        lemma_listed_extends(c, dirs);
        let a = DirNode::listed_paths_of(front, dirs);
        let b = c.listed_paths(dirs);
        assert(DirNode::listed_paths_of(s, dirs) == a + b);
        assert forall|k: int|
            0 <= k < DirNode::listed_paths_of(s, dirs).len() implies (
        #[trigger] DirNode::listed_paths_of(s, dirs)[k]).len() > e.len()
            && DirNode::listed_paths_of(s, dirs)[k].take(e.len() as int) == e by {
            if k < a.len() {
                assert(DirNode::listed_paths_of(s, dirs)[k] == a[k]);
            } else {
                let p = DirNode::listed_paths_of(s, dirs)[k];
                assert(p == b[k - a.len()]);
                assert(extends_path(c.entry_@, p));
                assert(p.take(e.len() as int) =~= p.take(c.entry_@.len() as int).take(
                    e.len() as int,
                ));
                assert(p.take(e.len() as int) == e);
            }
        }
        assert forall|k: int| 0 <= k < DirNode::listed_paths_of(s, dirs).len() implies exists|
            i: int,
        |
            0 <= i < s.len() && extends_path(
                s[i].entry_@,
                #[trigger] DirNode::listed_paths_of(s, dirs)[k],
            ) by {
            if k < a.len() {
                assert(DirNode::listed_paths_of(s, dirs)[k] == a[k]);
                let i0 = choose|i0: int|
                    0 <= i0 < front.len() && extends_path(front[i0].entry_@, a[k]);
                assert(front[i0] == s[i0]);
                assert(0 <= i0 < s.len() && extends_path(
                    s[i0].entry_@,
                    DirNode::listed_paths_of(s, dirs)[k],
                ));
            } else {
                let last = s.len() - 1;
                assert(s[last] == c);
                assert(extends_path(s[last].entry_@, DirNode::listed_paths_of(s, dirs)[k]));
            }
        }
    }
}

/// From a duplicate-free concatenation: both halves are
/// duplicate-free and share no element.
pub(crate) proof fn lemma_no_dup_split<A>(a: Seq<A>, b: Seq<A>)
    requires
        (a + b).no_duplicates(),
    ensures
        a.no_duplicates(),
        b.no_duplicates(),
        forall|i: int, j: int| 0 <= i < a.len() && 0 <= j < b.len() ==> a[i] != b[j],
{
    assert forall|i: int, j: int|
        0 <= i < a.len() && 0 <= j < a.len() && i != j implies a[i] != a[j] by {
        assert((a + b)[i] == a[i]);
        assert((a + b)[j] == a[j]);
    }
    assert forall|i: int, j: int|
        0 <= i < b.len() && 0 <= j < b.len() && i != j implies b[i] != b[j] by {
        assert((a + b)[a.len() + i] == b[i]);
        assert((a + b)[a.len() + j] == b[j]);
    }
    assert forall|i: int, j: int| 0 <= i < a.len() && 0 <= j < b.len() implies a[i] != b[j] by {
        assert((a + b)[i] == a[i]);
        assert((a + b)[a.len() + j] == b[j]);
    }
}

/// What a child subtree lists never collides with what the earlier
/// sibling subtrees list: each side starts with its own child's
/// distinct entry.
proof fn lemma_child_blocks_disjoint(
    front: Seq<DirNode>,
    c: DirNode,
    e: Seq<Seq<u8>>,
    d1: bool,
    d2: bool,
)
    requires
        forall|i: int| 0 <= i < front.len() ==> (#[trigger] front[i]).wf(),
        forall|i: int|
            0 <= i < front.len() ==> (#[trigger] front[i]).entry_@.len() == e.len() + 1
                && front[i].entry_@.take(e.len() as int) == e,
        c.wf(),
        c.entry_@.len() == e.len() + 1,
        forall|i: int| 0 <= i < front.len() ==> (#[trigger] front[i]).entry_@ != c.entry_@,
    ensures
        forall|i: int, j: int|
            0 <= i < DirNode::listed_paths_of(front, d1).len() && 0 <= j < c.listed_paths(
                d2,
            ).len() ==> DirNode::listed_paths_of(front, d1)[i] != c.listed_paths(d2)[j],
{
    lemma_listed_of_extends(front, d1, e);
    lemma_listed_extends(c, d2);
    let a = DirNode::listed_paths_of(front, d1);
    let b = c.listed_paths(d2);
    assert forall|i: int, j: int|
        0 <= i < a.len() && 0 <= j < b.len() implies a[i] != b[j] by {
        let i0 = choose|i0: int| 0 <= i0 < front.len() && extends_path(front[i0].entry_@, a[i]);
        assert(front[i0].entry_@ != c.entry_@);
        assert(a[i].take((e.len() + 1) as int) == front[i0].entry_@);
        assert(extends_path(c.entry_@, b[j]));
        assert(b[j].take((e.len() + 1) as int) == c.entry_@);
    }
}

/// The file listing and the directory listing of a well-formed
/// subtree, taken together, name no path twice.
pub(crate) proof fn lemma_listed_no_dup(n: DirNode)
    requires
        n.wf(),
    ensures
        (n.listed_paths(false) + n.listed_paths(true)).no_duplicates(),
    decreases n,
{
    if n.is_dir_ {
        let e = n.entry_@;
        let cs = n.child_entry_@;
        assert forall|i: int| 0 <= i < cs.len() implies (#[trigger] cs[i]).entry_@.len() == e.len()
            + 1 && cs[i].entry_@.take(e.len() as int) == e by {
            assert(cs[i].entry_@ == e.push(cs[i].entry_@.last()));
            assert(e.push(cs[i].entry_@.last()).take(e.len() as int) =~= e);
        }
        lemma_listed_of_no_dup(cs, e);
        lemma_listed_of_extends(cs, false, e);
        lemma_listed_of_extends(cs, true, e);
        let f = DirNode::listed_paths_of(cs, false);
        let d = DirNode::listed_paths_of(cs, true);
        lemma_no_dup_split(f, d);
        assert(seq![e].no_duplicates());
        assert forall|i: int, j: int|
            0 <= i < seq![e].len() && 0 <= j < d.len() implies seq![e][i] != d[j] by {
            assert(d[j].len() > e.len());
        }
        vstd::seq_lib::lemma_no_dup_in_concat(seq![e], d);
        assert forall|i: int, j: int|
            0 <= i < f.len() && 0 <= j < (seq![e] + d).len() implies f[i] != (seq![e] + d)[j] by {
            if j == 0 {
                assert((seq![e] + d)[j] == e);
                assert(f[i].len() > e.len());
            } else {
                assert((seq![e] + d)[j] == d[j - 1]);
            }
        }
        vstd::seq_lib::lemma_no_dup_in_concat(f, seq![e] + d);
        assert(n.listed_paths(false) =~= f);
        assert(n.listed_paths(true) == seq![e] + d);
    } else {
        let both = n.listed_paths(false) + n.listed_paths(true);
        assert(both =~= seq![n.entry_@]);
    }
}

/// `lemma_listed_no_dup` over the children of one directory whose
/// own path is `e`.
proof fn lemma_listed_of_no_dup(s: Seq<DirNode>, e: Seq<Seq<u8>>)
    requires
        forall|i: int| 0 <= i < s.len() ==> (#[trigger] s[i]).wf(),
        forall|i: int|
            0 <= i < s.len() ==> (#[trigger] s[i]).entry_@.len() == e.len() + 1
                && s[i].entry_@.take(e.len() as int) == e,
        forall|i: int, j: int| 0 <= i < j < s.len() ==> s[i].entry_@ != s[j].entry_@,
    ensures
        (DirNode::listed_paths_of(s, false) + DirNode::listed_paths_of(s, true)).no_duplicates(),
    decreases s,
{
    if s.len() == 0 {
        let both = DirNode::listed_paths_of(s, false) + DirNode::listed_paths_of(s, true);
        assert(both =~= Seq::<Seq<Seq<u8>>>::empty());
    } else {
        let front = s.drop_last();
        let c = s.last();
        let last = s.len() - 1;
        assert forall|i: int| 0 <= i < front.len() implies (#[trigger] front[i]).entry_@
            != c.entry_@ by {
            assert(front[i] == s[i]);
            assert(s[i].entry_@ != s[last].entry_@);
        }
        lemma_listed_of_no_dup(front, e);
        lemma_listed_no_dup(c);
        let af = DirNode::listed_paths_of(front, false);
        let ad = DirNode::listed_paths_of(front, true);
        let bf = c.listed_paths(false);
        let bd = c.listed_paths(true);
        lemma_no_dup_split(af, ad);
        lemma_no_dup_split(bf, bd);
        lemma_child_blocks_disjoint(front, c, e, false, false);
        lemma_child_blocks_disjoint(front, c, e, false, true);
        lemma_child_blocks_disjoint(front, c, e, true, false);
        lemma_child_blocks_disjoint(front, c, e, true, true);
        vstd::seq_lib::lemma_no_dup_in_concat(af, bf);
        vstd::seq_lib::lemma_no_dup_in_concat(ad, bd);
        assert forall|i: int, j: int|
            0 <= i < (af + bf).len() && 0 <= j < (ad + bd).len() implies (af + bf)[i] != (ad + bd)[
            j
        ] by {
            if i < af.len() {
                assert((af + bf)[i] == af[i]);
            } else {
                assert((af + bf)[i] == bf[i - af.len()]);
            }
            if j < ad.len() {
                assert((ad + bd)[j] == ad[j]);
            } else {
                assert((ad + bd)[j] == bd[j - ad.len()]);
            }
        }
        vstd::seq_lib::lemma_no_dup_in_concat(af + bf, ad + bd);
        assert(DirNode::listed_paths_of(s, false) == af + bf);
        assert(DirNode::listed_paths_of(s, true) == ad + bd);
    }
}

/// Concatenating sequences unions the sets of their elements.
proof fn lemma_concat_to_set<A>(a: Seq<A>, b: Seq<A>)
    ensures
        (a + b).to_set() == a.to_set().union(b.to_set()),
{
    broadcast use vstd::seq_lib::lemma_seq_concat_contains_all_elements;

    assert((a + b).to_set() =~= a.to_set().union(b.to_set()));
}

/// The file listing and the directory listing of a well-formed
/// subtree together name exactly the entries of the full recursive
/// listing: every entry is a file or a directory, and is listed once.
pub(crate) proof fn lemma_listed_covers(n: DirNode)
    requires
        n.wf(),
    ensures
        n.listed_paths(false).to_set().union(n.listed_paths(true).to_set())
            == n.all_paths().to_set(),
    decreases n,
{
    if n.is_dir_ {
        let e = n.entry_@;
        let cs = n.child_entry_@;
        lemma_listed_of_covers(cs);
        let f = DirNode::listed_paths_of(cs, false);
        let d = DirNode::listed_paths_of(cs, true);
        let rest = DirNode::all_paths_of(cs);
        lemma_concat_to_set(seq![e], d);
        lemma_concat_to_set(seq![e], rest);
        assert(n.listed_paths(false) =~= f);
        assert(seq![e][0] == e);
        assert(seq![e].contains(e));
        assert forall|x: Seq<Seq<u8>>| #[trigger] seq![e].to_set().contains(x) implies x == e by {
            let i = choose|i: int| 0 <= i < seq![e].len() && seq![e][i] == x;
            assert(seq![e][i] == e);
        }
        assert(n.listed_paths(false).to_set().union(n.listed_paths(true).to_set())
            =~= n.all_paths().to_set());
    } else {
        assert(n.all_paths() =~= seq![n.entry_@]);
        assert(n.listed_paths(false).to_set().union(n.listed_paths(true).to_set())
            =~= n.all_paths().to_set());
    }
}

/// `lemma_listed_covers` over a sequence of well-formed subtrees.
proof fn lemma_listed_of_covers(s: Seq<DirNode>)
    requires
        forall|i: int| 0 <= i < s.len() ==> (#[trigger] s[i]).wf(),
    ensures
        DirNode::listed_paths_of(s, false).to_set().union(
            DirNode::listed_paths_of(s, true).to_set(),
        ) == DirNode::all_paths_of(s).to_set(),
    decreases s,
{
    if s.len() == 0 {
        assert(DirNode::listed_paths_of(s, false).to_set().union(
            DirNode::listed_paths_of(s, true).to_set(),
        ) =~= DirNode::all_paths_of(s).to_set());
    } else {
        let front = s.drop_last();
        let c = s.last();
        lemma_listed_of_covers(front);
        lemma_listed_covers(c);
        lemma_concat_to_set(DirNode::listed_paths_of(front, false), c.listed_paths(false));
        lemma_concat_to_set(DirNode::listed_paths_of(front, true), c.listed_paths(true));
        lemma_concat_to_set(DirNode::all_paths_of(front), c.all_paths());
        assert(DirNode::listed_paths_of(s, false).to_set().union(
            DirNode::listed_paths_of(s, true).to_set(),
        ) =~= DirNode::all_paths_of(s).to_set());
    }
}

/// Law: the views are determined by the probe alone — every node
/// built from a probe lists exactly the paths the probe lists, so two
/// indexes built from the same filesystem answers agree on all views.
pub proof fn lemma_models_listed(n: DirNode, rl: Seq<Seq<u8>>, probe: FsProbe, dirs: bool)
    requires
        n.models(rl, probe),
    ensures
        n.listed_paths(dirs) == probe.listed(rl, dirs),
    decreases probe,
{
    match probe {
        FsProbe::File => {
            assert(n.listed_paths(dirs) =~= probe.listed(rl, dirs));
        },
        FsProbe::Dir(es) => {
            lemma_models_listed_children(n.child_entry_@, rl, es@, dirs);
            assert(n.listed_paths(dirs) =~= probe.listed(rl, dirs));
        },
        _ => {},
    }
}

/// `lemma_models_listed` over one directory's children.
proof fn lemma_models_listed_children(
    cs: Seq<DirNode>,
    rl: Seq<Seq<u8>>,
    es: Seq<FsChild>,
    dirs: bool,
)
    requires
        DirNode::models_children(cs, rl, es),
    ensures
        DirNode::listed_paths_of(cs, dirs) == FsProbe::listed_of(es, rl, dirs),
    decreases es,
{
    if es.len() > 0 {
        let e = es.last();
        if e.probe.builds() {
            lemma_models_listed_children(cs.drop_last(), rl, es.drop_last(), dirs);
            lemma_models_listed(cs.last(), rl.push(e.name@), e.probe, dirs);
        } else {
            lemma_models_listed_children(cs, rl, es.drop_last(), dirs);
            assert(FsProbe::listed_of(es, rl, dirs) =~= FsProbe::listed_of(
                es.drop_last(),
                rl,
                dirs,
            ));
        }
    }
}

/// Law: a node built from a well-formed probe satisfies the tree
/// invariant `wf`: files are childless, children extend the parent's
/// path by one segment, and no two children share a path.
pub proof fn lemma_models_wf(n: DirNode, rl: Seq<Seq<u8>>, probe: FsProbe)
    requires
        n.models(rl, probe),
        probe.wf(),
    ensures
        n.wf(),
    decreases probe,
{
    match probe {
        FsProbe::Dir(es) => {
            lemma_models_children_wf(n.child_entry_@, rl, es@);
        },
        _ => {},
    }
}

/// The children built from a well-formed listing are themselves
/// well-formed, sit one segment below `rl`, carry listed names, and
/// are pairwise distinct.
proof fn lemma_models_children_wf(cs: Seq<DirNode>, rl: Seq<Seq<u8>>, es: Seq<FsChild>)
    requires
        DirNode::models_children(cs, rl, es),
        forall|i: int| 0 <= i < es.len() ==> (#[trigger] es[i].probe).wf(),
        forall|i: int, j: int| 0 <= i < j < es.len() ==> es[i].name@ != es[j].name@,
    ensures
        forall|i: int| 0 <= i < cs.len() ==> (#[trigger] cs[i]).wf(),
        forall|i: int|
            0 <= i < cs.len() ==> (#[trigger] cs[i]).entry_@ == rl.push(cs[i].entry_@.last()),
        forall|i: int|
            0 <= i < cs.len() ==> exists|j: int|
                0 <= j < es.len() && (#[trigger] cs[i]).entry_@.last() == es[j].name@,
        forall|i: int, j: int| 0 <= i < j < cs.len() ==> cs[i].entry_@ != cs[j].entry_@,
    decreases es,
{
    if es.len() > 0 {
        let e = es.last();
        let front = es.drop_last();
        if e.probe.builds() {
            let fs = cs.drop_last();
            lemma_models_children_wf(fs, rl, front);
            lemma_models_wf(cs.last(), rl.push(e.name@), e.probe);
            let last = cs.len() - 1;
            assert(cs[last] == cs.last());
            assert(cs.last().models(rl.push(e.name@), e.probe));
            assert(cs[last].entry_@ == rl.push(e.name@));
            assert(cs[last].entry_@.last() == e.name@);
            assert forall|i: int| 0 <= i < cs.len() implies (#[trigger] cs[i]).wf() by {
                if i < last {
                    assert(fs[i] == cs[i]);
                    assert(fs[i].wf());
                }
            }
            assert forall|i: int| 0 <= i < cs.len() implies (#[trigger] cs[i]).entry_@ == rl.push(
                cs[i].entry_@.last(),
            ) by {
                if i < last {
                    assert(fs[i] == cs[i]);
                    assert(fs[i].entry_@ == rl.push(fs[i].entry_@.last()));
                }
            }
            assert forall|i: int| 0 <= i < cs.len() implies exists|j: int|
                0 <= j < es.len() && (#[trigger] cs[i]).entry_@.last() == es[j].name@ by {
                if i < last {
                    assert(fs[i] == cs[i]);
                    let j0 = choose|j0: int|
                        0 <= j0 < front.len() && (#[trigger] fs[i]).entry_@.last()
                            == front[j0].name@;
                    assert(front[j0] == es[j0]);
                    assert(0 <= j0 < es.len() && cs[i].entry_@.last() == es[j0].name@);
                } else {
                    assert(0 <= es.len() - 1 < es.len() && cs[i].entry_@.last() == es[
                        es.len() - 1
                    ].name@);
                }
            }
            assert forall|i: int, j: int| 0 <= i < j < cs.len() implies cs[i].entry_@
                != cs[j].entry_@ by {
                if j < last {
                    assert(fs[i] == cs[i] && fs[j] == cs[j]);
                    assert(fs[i].entry_@ != fs[j].entry_@);
                } else {
                    assert(fs[i] == cs[i]);
                    let j0 = choose|j0: int|
                        0 <= j0 < front.len() && (#[trigger] fs[i]).entry_@.last()
                            == front[j0].name@;
                    assert(front[j0] == es[j0]);
                    assert(es[j0].name@ != e.name@);
                    assert(cs[i].entry_@ == rl.push(cs[i].entry_@.last()));
                    assert(cs[i].entry_@.last() != cs[j].entry_@.last());
                }
            }
        } else {
            lemma_models_children_wf(cs, rl, front);
            assert forall|i: int| 0 <= i < cs.len() implies exists|j: int|
                0 <= j < es.len() && (#[trigger] cs[i]).entry_@.last() == es[j].name@ by {
                let j0 = choose|j0: int|
                    0 <= j0 < front.len() && (#[trigger] cs[i]).entry_@.last() == front[j0].name@;
                assert(front[j0] == es[j0]);
                assert(0 <= j0 < es.len() && cs[i].entry_@.last() == es[j0].name@);
            }
        }
    }
}

} // verus!
