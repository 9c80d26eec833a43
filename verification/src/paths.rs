//! Path values, kept as sequences of opaque byte segments.
//!
//! A path segment is one component of a path (one file or directory
//! name), held as raw bytes so that no UTF-8 validity is ever assumed.
//! A [`RelPath`] is a path relative to the index root; the root itself
//! is the empty segment sequence. An [`AbsPath`] is an absolute,
//! canonical path, read as `/seg0/seg1/...`.

use vstd::prelude::*;

verus! {

/// Copies one byte segment.
fn clone_bytes(v: &Vec<u8>) -> (r: Vec<u8>)
    ensures
        r@ == v@,
{
    let mut r: Vec<u8> = Vec::new();
    let mut i: usize = 0;
    while i < v.len()
        invariant
            i <= v.len(),
            r@ == v@.take(i as int),
        decreases v.len() - i,
    {
        r.push(v[i]);
        i = i + 1;
        proof {
            assert(r@ =~= v@.take(i as int));
        }
    }
    proof {
        assert(v@.take(v.len() as int) =~= v@);
    }
    r
}

/// Appends a copy of one segment to a segment list.
fn push_seg(v: &mut Vec<Vec<u8>>, s: &Vec<u8>)
    ensures
        final(v).deep_view() == old(v).deep_view().push(s@),
{
    let elem = clone_bytes(s);
    proof {
        assert(elem.deep_view() =~= s@);
    }
    v.push(elem);
    proof {
        assert forall|k: int| 0 <= k < v@.len() implies v.deep_view()[k]
            == old(v).deep_view().push(s@)[k] by {
            if k < old(v)@.len() {
                assert(v@[k] == old(v)@[k]);
                assert(old(v).deep_view()[k] == old(v)@[k].deep_view());
            } else {
                assert(v@[k] == elem);
            }
        }
        assert(v.deep_view() =~= old(v).deep_view().push(s@));
    }
}

/// A path relative to the index root: a sequence of name segments.
/// The empty sequence stands for the root itself.
#[derive(Debug)]
pub struct RelPath {
    pub segments: Vec<Vec<u8>>,
}

/// An absolute, canonical path: the sequence of name segments below `/`.
#[derive(Debug)]
pub struct AbsPath {
    pub segments: Vec<Vec<u8>>,
}

impl View for RelPath {
    type V = Seq<Seq<u8>>;

    open spec fn view(&self) -> Seq<Seq<u8>> {
        self.segments.deep_view()
    }
}

impl View for AbsPath {
    type V = Seq<Seq<u8>>;

    open spec fn view(&self) -> Seq<Seq<u8>> {
        self.segments.deep_view()
    }
}

impl RelPath {
    /// The empty relative path: the identity of the index root.
    pub fn empty() -> (r: RelPath)
        ensures
            r@ == Seq::<Seq<u8>>::empty(),
    {
        let r = RelPath { segments: Vec::new() };
        proof {
            assert(r@ =~= Seq::<Seq<u8>>::empty());
        }
        r
    }

    /// Wraps ready-made segments as a relative path.
    pub fn from_segments(segments: Vec<Vec<u8>>) -> (r: RelPath)
        ensures
            r@ == segments.deep_view(),
    {
        RelPath { segments }
    }

    /// Extends the path by one more segment.
    pub fn join(&self, name: &Vec<u8>) -> (r: RelPath)
        ensures
            r@ == self@.push(name@),
    {
        let mut segments = self.segments.clone();
        push_seg(&mut segments, name);
        RelPath { segments }
    }
}

impl Clone for RelPath {
    fn clone(&self) -> (r: Self)
        ensures
            r@ == self@,
    {
        let r = RelPath { segments: self.segments.clone() };
        proof {
            assert(r@ =~= self@);
        }
        r
    }
}

impl AbsPath {
    /// Wraps ready-made segments as an absolute path.
    pub fn from_segments(segments: Vec<Vec<u8>>) -> (r: AbsPath)
        ensures
            r@ == segments.deep_view(),
    {
        AbsPath { segments }
    }

    /// Resolves a relative path against this absolute path: the result
    /// is this path followed by every segment of the relative one.
    pub fn join_rel(&self, rel: &RelPath) -> (r: AbsPath)
        ensures
            r@ == self@ + rel@,
    {
        let mut segments = self.segments.clone();
        proof {
            assert(segments.deep_view() =~= self@ + rel@.take(0));
        }
        let mut i: usize = 0;
        while i < rel.segments.len()
            invariant
                i <= rel.segments.len(),
                segments.deep_view() == self@ + rel@.take(i as int),
            decreases rel.segments.len() - i,
        {
            push_seg(&mut segments, &rel.segments[i]);
            i = i + 1;
            proof {
                assert(rel@[i - 1] == rel.segments@[i - 1].deep_view());
                assert(rel.segments@[i - 1].deep_view() =~= rel.segments@[i - 1]@);
                assert(self@ + rel@.take(i as int) =~= (self@ + rel@.take(i - 1)).push(
                    rel@[i - 1],
                ));
            }
        }
        let r = AbsPath { segments };
        proof {
            assert(rel@.take(rel.segments.len() as int) =~= rel@);
        }
        r
    }
}

impl Clone for AbsPath {
    fn clone(&self) -> (r: Self)
        ensures
            r@ == self@,
    {
        let r = AbsPath { segments: self.segments.clone() };
        proof {
            assert(r@ =~= self@);
        }
        r
    }
}

} // verus!
