//! Raw geometry: the shapes that a layout is converted to.

use vstd::prelude::*;

use crate::cell::CellRef;
use crate::coords::Dir;

verus! {

/// The unit that raw coordinates count.
#[derive(Debug, Clone, Copy, PartialEq, Eq, Structural)]
pub enum Units {
    Micro,
    Nano,
    Angstrom,
}

/// A raw coordinate.
#[derive(Debug, Clone, Copy, PartialEq, Eq, Structural)]
pub struct Point {
    pub x: isize,
    pub y: isize,
}

impl DeepView for Point {
    type V = (int, int);

    open spec fn deep_view(&self) -> (int, int) {
        (self.x as int, self.y as int)
    }
}

impl Point {
    pub fn new(x: isize, y: isize) -> (p: Point)
        ensures
            p == (Point { x, y }),
    {
        Point { x, y }
    }
}

/// A copy of an optional name.
pub(crate) fn clone_name(name: &Option<String>) -> (copy: Option<String>)
    ensures
        copy == *name,
{
    match name {
        Some(s) => Some(s.clone()),
        None => None,
    }
}

/// A mask layer.
#[derive(Debug)]
pub struct Layer {
    pub layernum: i16,
    pub name: Option<String>,
}

impl Clone for Layer {
    fn clone(&self) -> (layer: Layer)
        ensures
            layer == *self,
    {
        Layer { layernum: self.layernum, name: clone_name(&self.name) }
    }
}

/// The handle of a layer in a [`Layers`].
#[derive(Debug, Clone, Copy, PartialEq, Eq, Structural)]
pub struct LayerKey {
    pub index: usize,
}

/// A set of layers, each found by the key that it was added under.
#[derive(Debug)]
pub struct Layers {
    pub layers: Vec<Layer>,
}

impl Default for Layers {
    fn default() -> (layers: Layers)
        ensures
            layers.layers@.len() == 0,
    {
        Layers { layers: Vec::new() }
    }
}

impl Layers {
    /// Adds `layer` and returns its key, which no other layer of the set has.
    pub fn add(&mut self, layer: Layer) -> (key: LayerKey)
        ensures
            final(self).layers@ == old(self).layers@.push(layer),
            key.index == old(self).layers@.len(),
    {
        let key = LayerKey { index: self.layers.len() };
        self.layers.push(layer);
        key
    }
}

/// What a shape is drawn for.
#[derive(Debug, Clone, Copy, PartialEq, Eq, Structural)]
pub enum LayerPurpose {
    Drawing,
    Outline,
}

/// A geometric shape.
#[derive(Debug)]
pub enum Shape {
    /// The rectangle with opposite corners `p0` and `p1`.
    Rect { p0: Point, p1: Point },
    /// The polygon through `pts`, closed from the last point to the first.
    Poly { pts: Vec<Point> },
}

/// The mathematical value of a [`Shape`].
#[verifier::ext_equal]
pub enum ShapeView {
    Rect { p0: (int, int), p1: (int, int) },
    Poly { pts: Seq<(int, int)> },
}

impl ShapeView {
    /// Where a rectangle starts and ends along `dir`.
    pub open spec fn along(self, dir: Dir) -> (int, int) {
        match dir {
            Dir::Horiz => (self->p0.0, self->p1.0),
            Dir::Vert => (self->p0.1, self->p1.1),
        }
    }
}

impl DeepView for Shape {
    type V = ShapeView;

    open spec fn deep_view(&self) -> ShapeView {
        match self {
            Shape::Rect { p0, p1 } => ShapeView::Rect { p0: p0.deep_view(), p1: p1.deep_view() },
            Shape::Poly { pts } => ShapeView::Poly { pts: pts.deep_view() },
        }
    }
}

/// A shape on a layer, and the net that it belongs to.
#[derive(Debug)]
pub struct Element {
    pub net: Option<String>,
    pub layer: LayerKey,
    pub purpose: LayerPurpose,
    pub inner: Shape,
}

/// The mathematical value of an [`Element`].
#[verifier::ext_equal]
pub struct ElementView {
    pub net: Option<Seq<char>>,
    pub layer: LayerKey,
    pub purpose: LayerPurpose,
    pub inner: ShapeView,
}

impl DeepView for Element {
    type V = ElementView;

    open spec fn deep_view(&self) -> ElementView {
        ElementView {
            net: self.net.deep_view(),
            layer: self.layer,
            purpose: self.purpose,
            inner: self.inner.deep_view(),
        }
    }
}

/// A placement of one cell in another.
#[derive(Debug)]
pub struct Instance {
    pub inst_name: String,
    pub cell_name: String,
    pub cell: CellRef,
    pub p0: Point,
    pub reflect: bool,
    pub angle: Option<i32>,
}

/// The mathematical value of an [`Instance`].
#[verifier::ext_equal]
pub struct InstanceView {
    pub inst_name: Seq<char>,
    pub cell_name: Seq<char>,
    pub cell: CellRef,
    pub p0: (int, int),
    pub reflect: bool,
    pub angle: Option<i32>,
}

impl DeepView for Instance {
    type V = InstanceView;

    open spec fn deep_view(&self) -> InstanceView {
        InstanceView {
            inst_name: self.inst_name@,
            cell_name: self.cell_name@,
            cell: self.cell,
            p0: self.p0.deep_view(),
            reflect: self.reflect,
            angle: self.angle,
        }
    }
}

/// A cell: its shapes and its instances of other cells.
#[derive(Debug)]
pub struct Cell {
    pub name: String,
    pub insts: Vec<Instance>,
    pub elems: Vec<Element>,
}

/// The mathematical value of a [`Cell`].
#[verifier::ext_equal]
pub struct CellView {
    pub name: Seq<char>,
    pub insts: Seq<InstanceView>,
    pub elems: Seq<ElementView>,
}

impl DeepView for Cell {
    type V = CellView;

    open spec fn deep_view(&self) -> CellView {
        CellView {
            name: self.name@,
            insts: self.insts.deep_view(),
            elems: self.elems.deep_view(),
        }
    }
}

/// A set of cells, and the layers that they are drawn on.
#[derive(Debug)]
pub struct Library {
    pub name: String,
    pub units: Units,
    pub layers: Layers,
    pub cells: Vec<Cell>,
}

/// The mathematical value of a [`Library`].
#[verifier::ext_equal]
pub struct LibraryView {
    pub name: Seq<char>,
    pub units: Units,
    pub layers: Seq<Layer>,
    pub cells: Seq<CellView>,
}

impl DeepView for Library {
    type V = LibraryView;

    open spec fn deep_view(&self) -> LibraryView {
        LibraryView {
            name: self.name@,
            units: self.units,
            layers: self.layers.layers@,
            cells: self.cells.deep_view(),
        }
    }
}

} // verus!
