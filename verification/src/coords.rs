//! Directions, units and coordinates.

use vstd::prelude::*;

verus! {

/// One of the two routing directions.
#[derive(Debug, Clone, Copy, PartialEq, Eq, Structural)]
pub enum Dir {
    Horiz,
    Vert,
}

impl Dir {
    /// The direction perpendicular to `self`.
    pub open spec fn opposite(self) -> Dir {
        match self {
            Dir::Horiz => Dir::Vert,
            Dir::Vert => Dir::Horiz,
        }
    }

    /// The direction perpendicular to `self`.
    pub fn other(self) -> (other: Dir)
        ensures
            other == self.opposite(),
    {
        match self {
            Dir::Horiz => Dir::Vert,
            Dir::Vert => Dir::Horiz,
        }
    }
}

/// A distance in database units.
#[derive(Debug, Clone, Copy, PartialEq, Eq, Structural)]
pub struct DbUnits(pub isize);

/// A number of primitive pitches in direction `dir`.
#[derive(Debug, Clone, Copy, PartialEq, Eq, Structural)]
pub struct PrimPitches {
    pub dir: Dir,
    pub num: isize,
}

/// A number of pitches of one metal layer.
#[derive(Debug, Clone, Copy, PartialEq, Eq, Structural)]
pub struct LayerPitches {
    pub layer: usize,
    pub num: isize,
}

/// A distance together with the unit it is measured in.
#[derive(Debug, Clone, Copy, PartialEq, Eq, Structural)]
pub enum UnitSpeced {
    DbUnits(DbUnits),
    PrimPitches(PrimPitches),
    LayerPitches(LayerPitches),
}

impl From<DbUnits> for UnitSpeced {
    fn from(u: DbUnits) -> (r: UnitSpeced) {
        UnitSpeced::DbUnits(u)
    }
}

impl vstd::std_specs::convert::FromSpecImpl<DbUnits> for UnitSpeced {
    open spec fn obeys_from_spec() -> bool {
        true
    }

    open spec fn from_spec(u: DbUnits) -> UnitSpeced {
        UnitSpeced::DbUnits(u)
    }
}

impl From<PrimPitches> for UnitSpeced {
    fn from(p: PrimPitches) -> (r: UnitSpeced) {
        UnitSpeced::PrimPitches(p)
    }
}

impl vstd::std_specs::convert::FromSpecImpl<PrimPitches> for UnitSpeced {
    open spec fn obeys_from_spec() -> bool {
        true
    }

    open spec fn from_spec(p: PrimPitches) -> UnitSpeced {
        UnitSpeced::PrimPitches(p)
    }
}

impl From<LayerPitches> for UnitSpeced {
    fn from(p: LayerPitches) -> (r: UnitSpeced) {
        UnitSpeced::LayerPitches(p)
    }
}

impl vstd::std_specs::convert::FromSpecImpl<LayerPitches> for UnitSpeced {
    open spec fn obeys_from_spec() -> bool {
        true
    }

    open spec fn from_spec(p: LayerPitches) -> UnitSpeced {
        UnitSpeced::LayerPitches(p)
    }
}

/// A pair of horizontal and vertical values.
#[derive(Debug)]
pub struct Xy<T> {
    pub x: T,
    pub y: T,
}

impl<T: Copy> Clone for Xy<T> {
    fn clone(&self) -> (xy: Xy<T>)
        ensures
            xy == *self,
    {
        *self
    }
}

impl<T: Copy> Copy for Xy<T> {

}

impl<T> Xy<T> {
    /// The component in direction `dir`.
    pub open spec fn along(self, dir: Dir) -> T {
        match dir {
            Dir::Horiz => self.x,
            Dir::Vert => self.y,
        }
    }
}

impl<T: Copy> Xy<T> {
    pub fn new(x: T, y: T) -> (xy: Xy<T>)
        ensures
            xy == (Xy { x, y }),
    {
        Xy { x, y }
    }

    /// The component in direction `dir`.
    pub fn get(&self, dir: Dir) -> (v: T)
        ensures
            v == self.along(dir),
    {
        match dir {
            Dir::Horiz => self.x,
            Dir::Vert => self.y,
        }
    }

    /// The pair with its components exchanged.
    pub fn transpose(&self) -> (xy: Xy<T>)
        ensures
            xy == (Xy { x: self.y, y: self.x }),
    {
        Xy { x: self.y, y: self.x }
    }
}

/// Whether `v` is a value of `isize`, the type that coordinates are held in.
pub open spec fn fits(v: int) -> bool {
    isize::MIN <= v <= isize::MAX
}

/// Half of `v`, rounded toward zero.
pub open spec fn half(v: int) -> int {
    if v >= 0 {
        v / 2
    } else {
        -((-v) / 2)
    }
}

/// Whether a coordinate can be added to `v` within `i128`.
pub open spec fn has_headroom(v: int) -> bool {
    -0x7fff_ffff_ffff_ffff_8000_0000_0000_0000 <= v <= 0x7fff_ffff_ffff_ffff_0000_0000_0000_0000
}

/// `n` times `pitch`, in a type that holds every such product.
pub(crate) fn scale(pitch: DbUnits, n: usize) -> (v: i128)
    ensures
        v == pitch.0 * n,
        has_headroom(v as int),
{
    let p = pitch.0 as i128;
    assert(has_headroom(p * n)) by (nonlinear_arith)
        requires
            -0x8000_0000_0000_0000 <= p <= 0x7fff_ffff_ffff_ffff,
            0 <= n <= 0xffff_ffff_ffff_ffff,
    ;
    p * n as i128
}

} // verus!
