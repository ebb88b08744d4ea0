//! Scene handles and the fixed screen positions labels can be pinned to.
use vstd::prelude::*;

verus! {

/// Opaque handle to an object in a scene: its stable insertion index.
#[derive(Clone, Copy, Debug, PartialEq, Eq, Structural)]
pub struct ObjectId(usize);

impl ObjectId {
    /// The insertion index this id stands for.
    pub closed spec fn index_of(self) -> usize {
        self.0
    }

    /// The insertion index this id stands for. Ids are not scene-scoped, so
    /// a consumer must treat an out-of-range index as a cull, never a panic.
    pub fn index(self) -> (i: usize)
        ensures
            i == self.index_of(),
    {
        self.0
    }

    /// Append `object` to a draw list and return its id: draw order is
    /// insertion order, and the id is the new entry's index.
    pub fn append<T>(objects: &mut Vec<T>, object: T) -> (id: ObjectId)
        ensures
            final(objects)@ == old(objects)@.push(object),
            id.index_of() == old(objects)@.len(),
    {
        objects.push(object);
        ObjectId(objects.len() - 1)
    }
}

/// Two ids are the same id exactly when they stand for the same insertion
/// index, so entries appended at distinct indices get distinct ids.
pub proof fn law_ids_are_insertion_indices(a: ObjectId, b: ObjectId)
    ensures
        a.index_of() != b.index_of() ==> a != b,
        a.index_of() == b.index_of() ==> a == b,
{
}

/// The draw list after appending each of `later`, in order, to `objects`
/// — what a series of [`ObjectId::append`] calls leaves behind.
pub open spec fn append_all<T>(objects: Seq<T>, later: Seq<T>) -> Seq<T>
    decreases later.len(),
{
    if later.len() == 0 {
        objects
    } else {
        append_all(objects, later.drop_last()).push(later.last())
    }
}

/// Appending keeps every entry already there and adds one per append.
proof fn lemma_append_all_keeps_prefix<T>(objects: Seq<T>, later: Seq<T>)
    ensures
        append_all(objects, later).len() == objects.len() + later.len(),
        forall|i: int| 0 <= i < objects.len() ==> #[trigger] append_all(objects, later)[i] == objects[i],
    decreases later.len(),
{
    if later.len() > 0 {
        lemma_append_all_keeps_prefix(objects, later.drop_last());
    }
}

/// Later insertions never change what an id designates: once `object` is
/// appended to `objects` under `id`, any number of further appends leave
/// `object` at `id`'s index, and every further append gets an id with
/// another index.
pub proof fn law_later_appends_keep_ids<T>(objects: Seq<T>, object: T, id: ObjectId, later: Seq<T>)
    requires
        id.index_of() == objects.len(),
    ensures
        append_all(objects.push(object), later)[id.index_of() as int] == object,
        append_all(objects.push(object), later).len() == objects.len() + 1 + later.len(),
        forall|j: int|
            0 <= j < later.len() ==> #[trigger] append_all(objects.push(object), later.take(j)).len()
                != id.index_of(),
{
    lemma_append_all_keeps_prefix(objects.push(object), later);
    assert forall|j: int| 0 <= j < later.len() implies #[trigger] append_all(
        objects.push(object),
        later.take(j),
    ).len() != id.index_of() by {
        lemma_append_all_keeps_prefix(objects.push(object), later.take(j));
    }
}

/// One of nine fixed image-space positions: a 3 × 3 grid over the view
/// window. Image space is `y`-up, so `Top` is `+y`.
///
/// The anchor is on the text baseline, and the run starts at it: placing a
/// run is the grid point, the alignment, and an offset.
#[derive(Clone, Copy, Debug, PartialEq, Eq, Structural)]
pub enum ScreenAnchor {
    /// Top-left corner of the view window.
    TopLeft,
    /// Midpoint of the top edge.
    TopCentre,
    /// Top-right corner.
    TopRight,
    /// Midpoint of the left edge.
    MidLeft,
    /// The view centre — exactly `(+0.0, +0.0)` for every view.
    Centre,
    /// Midpoint of the right edge.
    MidRight,
    /// Bottom-left corner.
    BottomLeft,
    /// Midpoint of the bottom edge.
    BottomCentre,
    /// Bottom-right corner.
    BottomRight,
}

} // verus!
