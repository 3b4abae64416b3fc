use crate::coord::Coord;
use crate::geo_traits::line_string::LineStringTrait;
use crate::scalar::owned::{copy_coords, OwnedLineString, OwnedMultiLineString};
use vstd::prelude::*;

verus! {

/// A set of line strings.
pub trait MultiLineStringTrait {
    type ItemType: LineStringTrait;

    /// The lines, in order.
    spec fn spec_lines(&self) -> Seq<Seq<Coord>>;

    /// The LineStrings in this MultiLineString, in order.
    fn lines(&self) -> (r: Vec<Self::ItemType>)
        ensures
            r@.len() == self.spec_lines().len(),
            forall|i: int|
                0 <= i < r@.len() ==> (#[trigger] r@[i]).spec_coords() == self.spec_lines()[i],
    ;

    /// The number of lines in this MultiLineString.
    fn num_lines(&self) -> (n: usize)
        ensures
            n == self.spec_lines().len(),
    ;

    /// The line at position `i`, or `None` where `i` is out of bounds.
    fn line(&self, i: usize) -> (r: Option<Self::ItemType>)
        ensures
            r is Some <==> i < self.spec_lines().len(),
            r is Some ==> r->Some_0.spec_coords() == self.spec_lines()[i as int],
    ;
}

impl MultiLineStringTrait for OwnedMultiLineString {
    type ItemType = OwnedLineString;

    open spec fn spec_lines(&self) -> Seq<Seq<Coord>> {
        self@
    }

    fn lines(&self) -> (r: Vec<OwnedLineString>) {
        let n = self.lines.len();
        let mut r: Vec<OwnedLineString> = Vec::new();
        let mut i: usize = 0;
        while i < n
            invariant
                n == self.lines@.len(),
                i <= n,
                r@.len() == i,
                forall|k: int| 0 <= k < i ==> (#[trigger] r@[k]).spec_coords() == self@[k],
            decreases n - i,
        {
            r.push(OwnedLineString { coords: copy_coords(&self.lines[i]) });
            i += 1;
        }
        r
    }

    fn num_lines(&self) -> (n: usize) {
        self.lines.len()
    }

    fn line(&self, i: usize) -> (r: Option<OwnedLineString>) {
        if i < self.lines.len() {
            Some(OwnedLineString { coords: copy_coords(&self.lines[i]) })
        } else {
            None
        }
    }
}

} // verus!
