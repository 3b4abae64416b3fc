use crate::coord::Coord;
use vstd::prelude::*;

verus! {

/// A single position.
pub trait PointTrait {
    /// The position.
    spec fn spec_coord(&self) -> Coord;

    /// The x ordinate.
    fn x(&self) -> (r: u64)
        ensures
            r == self.spec_coord().x,
    ;

    /// The y ordinate.
    fn y(&self) -> (r: u64)
        ensures
            r == self.spec_coord().y,
    ;
}

impl PointTrait for Coord {
    open spec fn spec_coord(&self) -> Coord {
        *self
    }

    fn x(&self) -> (r: u64) {
        self.x
    }

    fn y(&self) -> (r: u64) {
        self.y
    }
}

} // verus!
