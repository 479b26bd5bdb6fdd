//! Gridded cells and libraries.

use vstd::prelude::*;

use crate::abstrakt::Abstract;
use crate::coords::{PrimPitches, Xy};
use crate::error::LayoutResult;
use crate::outline::{HasOutline, Outline};
use crate::validate::{ValidAssign, ValidTrackLoc};

verus! {

/// The handle of a cell: its position in [`Library::cells`].
#[derive(Debug, Clone, Copy, PartialEq, Eq, Structural)]
pub struct CellKey {
    pub index: usize,
}

/// The handle of an abstract: its position in [`Library::abstracts`].
#[derive(Debug, Clone, Copy, PartialEq, Eq, Structural)]
pub struct AbstractKey {
    pub index: usize,
}

/// A reference to the definition of an instance.
#[derive(Debug)]
pub enum CellRef {
    /// A cell of the same library.
    Cell(CellKey),
    /// An abstract of the same library.
    Abstract(AbstractKey),
    /// A name that has not been resolved.
    Name(String),
}

impl Clone for CellRef {
    fn clone(&self) -> (r: CellRef)
        ensures
            r == *self,
    {
        match self {
            CellRef::Cell(k) => CellRef::Cell(*k),
            CellRef::Abstract(k) => CellRef::Abstract(*k),
            CellRef::Name(s) => CellRef::Name(s.clone()),
        }
    }
}

/// A placement of a cell or abstract, on the primitive grid.
#[derive(Debug)]
pub struct Instance {
    pub inst_name: String,
    pub cell_name: String,
    pub cell: CellRef,
    /// Location of the lower-left corner.
    pub loc: Xy<PrimPitches>,
    /// Whether the instance is mirrored.
    pub reflect: bool,
    /// Rotation in degrees.
    pub angle: Option<i32>,
}

/// A cell on the track grid.
///
/// Its cuts and assignments stand as they came out of their validation against the metal stack:
/// each is a valid value, or the error that it was refused with.
#[derive(Debug)]
pub struct Cell {
    pub name: String,
    /// The number of metal layers in use.
    pub top_layer: usize,
    pub outline: Outline,
    pub instances: Vec<Instance>,
    pub assignments: Vec<LayoutResult<ValidAssign>>,
    pub cuts: Vec<LayoutResult<ValidTrackLoc>>,
}

impl HasOutline for Cell {
    open spec fn outline_spec(&self) -> Outline {
        self.outline
    }

    open spec fn top_layer_spec(&self) -> usize {
        self.top_layer
    }

    fn outline(&self) -> (outline: &Outline) {
        &self.outline
    }

    fn top_layer(&self) -> (top: usize) {
        self.top_layer
    }
}

/// A set of cells and of abstracts.
#[derive(Debug)]
pub struct Library {
    pub name: String,
    pub cells: Vec<Cell>,
    pub abstracts: Vec<Abstract>,
}

} // verus!
