//! Cell outlines.

use vstd::prelude::*;

use crate::coords::{Dir, PrimPitches};

verus! {

/// The outline of a cell, as the corners of a staircase.
///
/// Starting at the origin, the boundary runs to `x[0]`, up to `y[0]`, back to `x[1]`, up to `y[1]`
/// and so on, until from the last `y` it returns to the vertical axis.
/// A single pair of coordinates is a rectangle.
#[derive(Debug)]
pub struct Outline {
    pub x: Vec<PrimPitches>,
    pub y: Vec<PrimPitches>,
}

impl Outline {
    /// Whether the outline is a staircase: one `y` for each `x`, the `x` coordinates falling and
    /// the `y` coordinates rising.
    pub open spec fn is_staircase(self) -> bool {
        &&& self.x@.len() == self.y@.len()
        &&& forall|i: int, j: int| 0 <= i < j < self.x@.len() ==> self.x@[j].num < self.x@[i].num
        &&& forall|i: int, j: int| 0 <= i < j < self.y@.len() ==> self.y@[i].num < self.y@[j].num
    }

    /// Whether the outline has a coordinate in direction `dir`.
    pub open spec fn reaches(self, dir: Dir) -> bool {
        match dir {
            Dir::Horiz => self.x@.len() > 0,
            Dir::Vert => self.y@.len() > 0,
        }
    }

    /// The extent in direction `dir`: the first `x`, or the last `y`.
    pub open spec fn extent(self, dir: Dir) -> PrimPitches {
        match dir {
            Dir::Horiz => self.x@[0],
            Dir::Vert => self.y@[self.y@.len() - 1],
        }
    }

    /// The extent in direction `dir`: the first `x`, or the last `y`.
    pub fn max(&self, dir: Dir) -> (p: PrimPitches)
        requires
            self.reaches(dir),
        ensures
            p == self.extent(dir),
    {
        match dir {
            Dir::Horiz => self.x[0],
            Dir::Vert => self.y[self.y.len() - 1],
        }
    }
}

/// Something with an outline, occupying metal layers up to a topmost one.
pub trait HasOutline {
    spec fn outline_spec(&self) -> Outline;

    spec fn top_layer_spec(&self) -> usize;

    /// The outline.
    fn outline(&self) -> (outline: &Outline)
        ensures
            *outline == self.outline_spec(),
    ;

    /// The number of metal layers that it uses.
    fn top_layer(&self) -> (top: usize)
        ensures
            top == self.top_layer_spec(),
    ;
}

/// The extent of a staircase outline is the greatest of its coordinates in each direction.
pub proof fn extent_is_greatest(outline: Outline, i: int)
    requires
        outline.is_staircase(),
        0 <= i < outline.x@.len(),
    ensures
        outline.x@[i].num <= outline.extent(Dir::Horiz).num,
        outline.y@[i].num <= outline.extent(Dir::Vert).num,
{
}

} // verus!
