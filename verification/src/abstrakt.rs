//! Abstract cells: an outline and its ports, without an implementation.

use vstd::prelude::*;

use crate::outline::{HasOutline, Outline};
use crate::validate::ValidTrackLoc;

verus! {

/// The edge of the outline that a port lies on.
#[derive(Debug, Clone, Copy, PartialEq, Eq, Structural)]
pub enum Side {
    BottomOrLeft,
    TopOrRight,
}

/// Where a port is.
#[derive(Debug)]
pub enum PortKind {
    /// On signal track `track` of metal layer `layer`, at one edge of the outline.
    Edge { layer: usize, track: usize, side: Side },
    /// At each of a set of track locations.
    Zlocs { locs: Vec<ValidTrackLoc> },
    /// On the whole of signal track `track` of metal layer `layer`.
    Zfull { layer: usize, track: usize },
}

/// A connection to the outside.
#[derive(Debug)]
pub struct Port {
    pub name: String,
    pub kind: PortKind,
}

/// The interface of a cell.
#[derive(Debug)]
pub struct Abstract {
    pub name: String,
    pub outline: Outline,
    pub top_layer: usize,
    pub ports: Vec<Port>,
}

impl HasOutline for Abstract {
    open spec fn outline_spec(&self) -> Outline {
        self.outline
    }

    open spec fn top_layer_spec(&self) -> usize {
        self.top_layer
    }

    fn outline(&self) -> (outline: &Outline) {
        &self.outline
    }

    fn top_layer(&self) -> (top: usize) {
        self.top_layer
    }
}

} // verus!
