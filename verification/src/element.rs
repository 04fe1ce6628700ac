use vstd::prelude::*;

verus! {

/// An element that has children: `bundle` is spawned first, then
/// `spawn_children` is run against the spawned entity to create its
/// children, in the order in which they were written.
///
/// `bundle` may itself be a tree with children, so component trees nest.
pub struct WithChildren<S, F> {
    pub bundle: S,
    pub spawn_children: F,
}

/// An element that carries a marker component: `inner` is spawned, then
/// `marker` is inserted on the spawned entity.
pub struct WithMarker<S, M> {
    pub inner: S,
    pub marker: M,
}

} // verus!
