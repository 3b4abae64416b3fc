use crate::scalar::owned::OwnedGeometryCollection;
use vstd::prelude::*;

verus! {

/// A collection of geometries of any kinds.
pub trait GeometryCollectionTrait {
    /// The number of geometries.
    spec fn spec_num_geometries(&self) -> nat;

    /// The number of geometries in this collection.
    fn num_geometries(&self) -> (n: usize)
        ensures
            n == self.spec_num_geometries(),
    ;
}

impl GeometryCollectionTrait for OwnedGeometryCollection {
    open spec fn spec_num_geometries(&self) -> nat {
        self.geometries@.len()
    }

    fn num_geometries(&self) -> (n: usize) {
        self.geometries.len()
    }
}

} // verus!
