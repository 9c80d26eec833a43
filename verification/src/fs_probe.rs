//! The filesystem's answers, as plain values.
//!
//! The indexer never touches the filesystem itself. A caller probes the
//! tree rooted at a path — for every entry: does it exist, is it a file
//! or a directory, and, for a readable directory, what are its
//! children — and hands the whole answer in as an [`FsProbe`]. Every
//! decision the indexer takes over those answers is then verified.

use vstd::prelude::*;

verus! {

/// What the filesystem reports about one entry.
#[derive(Debug)]
pub enum FsProbe {
    /// The entry is a regular file.
    File,
    /// The entry is a directory whose listing could be read; each child
    /// is a name paired with that child's own probe.
    Dir(Vec<FsChild>),
    /// The entry is a directory, but reading its listing was denied.
    DirDenied,
    /// The entry is neither a file nor a directory: it vanished between
    /// listing and probing, or is a dangling symbolic link.
    Missing,
}

/// One listed child of a directory: its name and its probe.
#[derive(Debug)]
pub struct FsChild {
    pub name: Vec<u8>,
    pub probe: FsProbe,
}

impl FsProbe {
    /// Whether a node is built from this probe: files and readable
    /// directories become nodes; denied directories and missing entries
    /// fail (and are omitted when they are below the root).
    pub open spec fn builds(self) -> bool {
        self is File || self is Dir
    }

    /// The relative paths, below the prefix `rl`, that an index built
    /// from this probe lists: the directory entries with `dirs`, the
    /// file entries without. This pins every view down from the probe
    /// alone.
    pub open spec fn listed(self, rl: Seq<Seq<u8>>, dirs: bool) -> Seq<Seq<Seq<u8>>>
        decreases self,
    {
        match self {
            FsProbe::File => if dirs {
                Seq::<Seq<Seq<u8>>>::empty()
            } else {
                seq![rl]
            },
            FsProbe::Dir(es) => (if dirs {
                seq![rl]
            } else {
                Seq::<Seq<Seq<u8>>>::empty()
            }) + Self::listed_of(es@, rl, dirs),
            FsProbe::DirDenied => Seq::<Seq<Seq<u8>>>::empty(),
            FsProbe::Missing => Seq::<Seq<Seq<u8>>>::empty(),
        }
    }

    /// `listed` accumulated over one directory's children; a child
    /// whose probe does not build contributes nothing.
    pub open spec fn listed_of(es: Seq<FsChild>, rl: Seq<Seq<u8>>, dirs: bool) -> Seq<Seq<Seq<u8>>>
        decreases es,
    {
        if es.len() == 0 {
            Seq::<Seq<Seq<u8>>>::empty()
        } else {
            Self::listed_of(es.drop_last(), rl, dirs) + (if es.last().probe.builds() {
                es.last().probe.listed(rl.push(es.last().name@), dirs)
            } else {
                Seq::<Seq<Seq<u8>>>::empty()
            })
        }
    }

    /// A probe describes a filesystem only if, in every listed
    /// directory, the children's names are distinct.
    pub open spec fn wf(self) -> bool
        decreases self,
    {
        match self {
            FsProbe::Dir(es) => {
                &&& forall|i: int| 0 <= i < es@.len() ==> (#[trigger] es@[i].probe).wf()
                &&& forall|i: int, j: int|
                    0 <= i < j < es@.len() ==> es@[i].name@ != es@[j].name@
            },
            _ => true,
        }
    }
}

} // verus!
