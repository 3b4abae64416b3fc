use crate::array::rect::Rect;
use crate::coord::Coord;
use crate::geo_traits::point::PointTrait;
use vstd::prelude::*;

verus! {

/// An axis-aligned rectangle.
pub trait RectTrait {
    type ItemType: PointTrait;

    /// The two corners.
    spec fn spec_rect(&self) -> Rect;

    /// The lower corner.
    fn lower(&self) -> (r: Self::ItemType)
        ensures
            r.spec_coord() == self.spec_rect().lower,
    ;

    /// The upper corner.
    fn upper(&self) -> (r: Self::ItemType)
        ensures
            r.spec_coord() == self.spec_rect().upper,
    ;
}

impl RectTrait for Rect {
    type ItemType = Coord;

    open spec fn spec_rect(&self) -> Rect {
        *self
    }

    fn lower(&self) -> (r: Coord) {
        self.lower
    }

    fn upper(&self) -> (r: Coord) {
        self.upper
    }
}

} // verus!
