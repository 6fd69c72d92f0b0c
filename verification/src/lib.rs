//! Planar convex hull of a finite set of two-dimensional points with exact
//! integer coordinates.
//!
//! Any indexed point container can implement [`ConvexHull`] by supplying its
//! entries and random access by identifier; the provided
//! [`ConvexHull::convex_hull`] method then returns the hull boundary as an
//! ordered, counter-clockwise sequence of point identifiers. Non-real points
//! (placeholders for coordinates that were not finite) are ignored; an empty
//! source yields an empty boundary and a single real point yields just its
//! identifier. The whole computation is specified by the mathematical
//! function [`hull_model`] and the executable code is proved equal to it.

use vstd::prelude::*;

pub mod chain;
pub mod extremes;
pub mod geometry;
pub mod hull;
pub mod merge;
pub mod quad;

pub use geometry::COORD_BOUND;
pub use geometry::Entry;
pub use geometry::Point;
pub use geometry::PointValue;
pub use extremes::lemma_scan_extremal;
pub use hull::hull_ids;
pub use hull::hull_ids_parallel;
pub use hull::hull_model;
pub use hull::lemma_hull_empty;
pub use hull::lemma_hull_no_closing_dup;
pub use hull::lemma_hull_ids_from_source;
pub use hull::lemma_hull_singleton;

use crate::geometry::entries_wf;

verus! {

/// An index known to be valid: values of this type are created only inside
/// [`ConvexHull::convex_hull`] from identifiers the point source itself
/// yielded, so they can safely be used for access by identifier. The
/// underlying raw index is read out with `usize::from` or [`reinterpret`].
#[derive(Clone, Copy, PartialEq, Eq, Structural, Debug)]
pub struct Index {
    i: usize,
}

impl View for Index {
    type V = usize;

    closed spec fn view(&self) -> usize {
        self.i
    }
}

impl From<Index> for usize {
    fn from(value: Index) -> usize {
        value.i
    }
}

impl vstd::std_specs::convert::FromSpecImpl<Index> for usize {
    open spec fn obeys_from_spec() -> bool {
        true
    }

    open spec fn from_spec(t: Index) -> usize {
        t@
    }
}

/// Maps a vector of validated indices to the underlying raw indices,
/// element by element.
pub fn reinterpret(index_vec: Vec<Index>) -> (r: Vec<usize>)
    ensures
        r@.len() == index_vec@.len(),
        forall|i: int| 0 <= i < r@.len() ==> r@[i] == index_vec@[i]@,
{
    let mut r: Vec<usize> = Vec::new();
    let mut i: usize = 0;
    while i < index_vec.len()
        invariant
            0 <= i <= index_vec@.len(),
            r@.len() == i,
            forall|j: int| 0 <= j < i ==> r@[j] == index_vec@[j]@,
        decreases index_vec@.len() - i,
    {
        let x = index_vec[i];
        r.push(x.i);
        i = i + 1;
    }
    r
}

/// Like [`reinterpret`], but reads from a borrowed slice of validated
/// indices.
pub fn reinterpret_ref(index_slice: &[Index]) -> (r: Vec<usize>)
    ensures
        r@.len() == index_slice@.len(),
        forall|i: int| 0 <= i < r@.len() ==> r@[i] == index_slice@[i]@,
{
    let mut r: Vec<usize> = Vec::new();
    let mut i: usize = 0;
    while i < index_slice.len()
        invariant
            0 <= i <= index_slice@.len(),
            r@.len() == i,
            forall|j: int| 0 <= j < i ==> r@[j] == index_slice@[j]@,
        decreases index_slice@.len() - i,
    {
        let x = index_slice[i];
        r.push(x.i);
        i = i + 1;
    }
    r
}

fn wrap_indices(ids: Vec<usize>) -> (r: Vec<Index>)
    ensures
        r@.len() == ids@.len(),
        forall|i: int| 0 <= i < r@.len() ==> (#[trigger] r@[i])@ == ids@[i],
{
    let mut r: Vec<Index> = Vec::new();
    let mut i: usize = 0;
    while i < ids.len()
        invariant
            0 <= i <= ids@.len(),
            r@.len() == i,
            forall|j: int| 0 <= j < i ==> (#[trigger] r@[j])@ == ids@[j],
        decreases ids@.len() - i,
    {
        let x = ids[i];
        r.push(Index { i: x });
        i = i + 1;
    }
    r
}

/// The capability an indexed point container implements to obtain a convex
/// hull computation: enumeration of all (identifier, point) entries and
/// random access by a validated identifier.
pub trait ConvexHull {
    /// The entries this source yields, as a mathematical sequence.
    spec fn source(&self) -> Seq<Entry>;

    /// Yields all identifiers of the collection with their points, in the
    /// source's own order.
    fn convex_hull_iter(&self) -> (r: Vec<Entry>)
        ensures
            r@ == self.source(),
    ;

    /// Returns the point stored under a validated index.
    fn convex_hull_get(&self, key: Index) -> (r: PointValue)
        requires
            exists|j: int| 0 <= j < self.source().len()
                && (#[trigger] self.source()[j]).0 == key@,
        ensures
            exists|j: int| 0 <= j < self.source().len()
                && #[trigger] self.source()[j] == (key@, r),
    ;

    /// Computes the convex hull of the collection: the validated indices of
    /// the boundary points in counter-clockwise order, as given by
    /// [`hull_model`]. A repeated identifier is expected when the point set
    /// degenerates to a line (the boundary runs there and back).
    fn convex_hull(&self) -> (r: Vec<Index>)
        requires
            entries_wf(self.source()),
        ensures
            r@.len() == hull_model(self.source()).len(),
            forall|i: int| 0 <= i < r@.len()
                ==> (#[trigger] r@[i])@ == hull_model(self.source())[i],
    {
        let entries = self.convex_hull_iter();
        let ids = hull_ids(&entries);
        wrap_indices(ids)
    }
}

impl ConvexHull for Vec<PointValue> {
    open spec fn source(&self) -> Seq<Entry> {
        Seq::new(self@.len(), |i: int| (i as usize, self@[i]))
    }

    fn convex_hull_iter(&self) -> (r: Vec<Entry>) {
        let mut r: Vec<Entry> = Vec::new();
        let mut i: usize = 0;
        while i < self.len()
            invariant
                0 <= i <= self@.len(),
                r@.len() == i,
                forall|j: int| 0 <= j < i ==> #[trigger] r@[j] == (j as usize, self@[j]),
            decreases self@.len() - i,
        {
            let v = self[i];
            r.push((i, v));
            i = i + 1;
        }
        proof {
            assert(r@ =~= self.source());
        }
        r
    }

    fn convex_hull_get(&self, key: Index) -> (r: PointValue) {
        proof {
            let j = choose|j: int| 0 <= j < self.source().len()
                && (#[trigger] self.source()[j]).0 == key@;
            assert(self.source()[j].0 == j as usize);
        }
        let k = key.i;
        let v = self[k];
        proof {
            assert(self.source()[key@ as int] == (key@, v));
        }
        v
    }
}

} // verus!
