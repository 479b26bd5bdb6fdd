//! Short-lived arrangements of a cell's data, in the order that conversion visits it.

use vstd::prelude::*;

use crate::abstrakt::Abstract;
use crate::cell::{Cell, CellRef, Instance, Library};
use crate::coords::{DbUnits, PrimPitches};
use crate::error::ErrorView;
use crate::model::{in_period, up_to_layer, ConverterView, LayerInput, PeriodInput, Placed};
use crate::outline::{HasOutline, Outline};
use crate::raw::ElementView;
use crate::slots::{assign_contents, lookup, AssignKey, AssignMap};
use crate::stack::ValidMetalLayer;
use crate::tracks::LayerPeriodView;
use crate::validate::{ValidAssign, ValidTrackLoc};

verus! {

/// The definition of an instance.
#[derive(Debug, Clone, Copy)]
pub enum CellDef<'a> {
    Cell(&'a Cell),
    Abstract(&'a Abstract),
}

impl<'a> HasOutline for CellDef<'a> {
    open spec fn outline_spec(&self) -> Outline {
        match self {
            CellDef::Cell(cell) => cell.outline,
            CellDef::Abstract(abs) => abs.outline,
        }
    }

    open spec fn top_layer_spec(&self) -> usize {
        match self {
            CellDef::Cell(cell) => cell.top_layer,
            CellDef::Abstract(abs) => abs.top_layer,
        }
    }

    fn outline(&self) -> (outline: &Outline) {
        match self {
            CellDef::Cell(cell) => cell.outline(),
            CellDef::Abstract(abs) => abs.outline(),
        }
    }

    fn top_layer(&self) -> (top: usize) {
        match self {
            CellDef::Cell(cell) => cell.top_layer(),
            CellDef::Abstract(abs) => abs.top_layer(),
        }
    }
}

/// A short-lived set of references to an [`Instance`] and its cell-definition
#[derive(Debug, Clone, Copy)]
pub struct TempInstance<'a> {
    pub inst: &'a Instance,
    pub def: CellDef<'a>,
}

impl<'a> TempInstance<'a> {
    /// Where the instance is, and what it takes up.
    pub open spec fn placed(self) -> Placed {
        Placed {
            loc: self.inst.loc,
            outline: self.def.outline_spec(),
            top_layer: self.def.top_layer_spec(),
        }
    }
}

/// Whether `def` is what `r` refers to in `lib`.
pub open spec fn defines(lib: Library, r: CellRef, def: CellDef) -> bool {
    match (r, def) {
        (CellRef::Cell(k), CellDef::Cell(cell)) => *cell == lib.cells@[k.index as int],
        (CellRef::Abstract(k), CellDef::Abstract(abs)) => *abs == lib.abstracts@[k.index as int],
        _ => false,
    }
}

/// Where instances are, and what they take up.
pub open spec fn all_placed(instances: Seq<TempInstance>) -> Seq<Placed> {
    instances.map_values(|i: TempInstance| i.placed())
}

/// The instances that come up to metal layer `index`.
pub open spec fn reaching<'a>(index: int) -> spec_fn(TempInstance<'a>) -> bool {
    |i: TempInstance<'a>| i.def.top_layer_spec() >= index
}

/// A short-lived Cell, largely organized by layer
#[derive(Debug)]
pub struct TempCell<'a> {
    /// Reference to the source [`Cell`]
    pub cell: &'a Cell,
    /// Reference to the source [`Library`]
    pub lib: &'a Library,
    /// Instances and references to their definitions
    pub instances: Vec<TempInstance<'a>>,
    /// Cuts, arranged by Layer
    pub cuts: Vec<Vec<ValidTrackLoc>>,
    /// Validated Assignments
    pub assignments: AssignMap,
    /// Assignments, arranged by upper Layer
    pub top_assns: Vec<Vec<AssignKey>>,
    /// Assignments, arranged by lower Layer
    pub bot_assns: Vec<Vec<AssignKey>>,
}

impl<'a> TempCell<'a> {
    /// The assignments found under `keys`.
    pub open spec fn lookup(self, keys: Seq<AssignKey>) -> Seq<Option<ValidAssign>> {
        lookup(assign_contents(self.assignments), keys)
    }

    /// The keys of the assignments whose upper track is in period number `periodnum` of `layer`.
    pub open spec fn top_key_in_period(
        self,
        layer: ValidMetalLayer,
        periodnum: int,
    ) -> spec_fn(AssignKey) -> bool {
        let contents = assign_contents(self.assignments);
        |k: AssignKey| in_period(layer, periodnum, contents[k].top.track as int)
    }

    /// The keys of the assignments whose lower track is in period number `periodnum` of `layer`.
    pub open spec fn bot_key_in_period(
        self,
        layer: ValidMetalLayer,
        periodnum: int,
    ) -> spec_fn(AssignKey) -> bool {
        let contents = assign_contents(self.assignments);
        |k: AssignKey| in_period(layer, periodnum, contents[k].bot.track as int)
    }

    /// Whether the cell is arranged for metal layer `index`.
    pub open spec fn has_layer(self, index: int) -> bool {
        &&& index < self.cuts@.len()
        &&& index < self.top_assns@.len()
        &&& index < self.bot_assns@.len()
    }

    /// What the cell puts on `layer`.
    pub open spec fn input(self, layer: ValidMetalLayer) -> LayerInput {
        LayerInput {
            placed: all_placed(self.instances@).filter(up_to_layer(layer.index as int)),
            cuts: self.cuts@[layer.index as int]@,
            bots: self.lookup(self.bot_assns@[layer.index as int]@),
            tops: self.lookup(self.top_assns@[layer.index as int]@),
        }
    }
}

/// Temporary arrangement of data for a layer within a [`Cell`]
#[derive(Debug)]
pub struct TempCellLayer<'a> {
    /// Reference to the validated metal layer
    pub layer: &'a ValidMetalLayer,
    /// Reference to the parent cell
    pub cell: &'a TempCell<'a>,
    /// Instances which come up to this layer
    pub instances: Vec<TempInstance<'a>>,
    /// Pitch per layer-period
    pub pitch: DbUnits,
    /// Number of layer-periods
    pub nperiods: usize,
    /// Spanning distance in the layer's "infinite" dimension
    pub span: DbUnits,
}

impl<'a> TempCellLayer<'a> {
    /// What the cell puts on the layer.
    pub open spec fn input(self) -> LayerInput {
        LayerInput { placed: all_placed(self.instances@), ..self.cell.input(*self.layer) }
    }
}

/// Short-Lived structure of the stuff relevant for converting a single layer-period,
/// on a single layer, in a single Cell.
#[derive(Debug)]
pub struct TempPeriod<'a> {
    pub periodnum: usize,
    pub cell: &'a TempCell<'a>,
    pub layer: &'a TempCellLayer<'a>,
    /// Instance Blockages
    pub blockages: Vec<(PrimPitches, PrimPitches)>,
    pub cuts: Vec<ValidTrackLoc>,
    pub top_assns: Vec<AssignKey>,
    pub bot_assns: Vec<AssignKey>,
}

impl<'a> TempPeriod<'a> {
    /// What the cell puts on the period.
    pub open spec fn input(self) -> PeriodInput {
        PeriodInput {
            blockages: self.blockages@,
            cuts: self.cuts@,
            bots: self.cell.lookup(self.bot_assns@),
            tops: self.cell.lookup(self.top_assns@),
        }
    }

    /// The period with unbroken wires.
    pub open spec fn blank(self) -> LayerPeriodView {
        self.layer.layer.layer_period(self.periodnum as int, self.layer.span.0 as int)
    }

    /// Whether the period can be converted.
    pub open spec fn prepared(self, converter: ConverterView) -> bool {
        converter.period_ready(
            *self.layer.layer,
            self.periodnum as int,
            self.layer.span.0 as int,
            self.input(),
        )
    }

    /// What the period is converted to.
    pub open spec fn outcome(self, converter: ConverterView) -> Result<
        Seq<ElementView>,
        ErrorView,
    > {
        converter.period_outcome(
            *self.layer.layer,
            self.periodnum as int,
            self.layer.span.0 as int,
            self.input(),
        )
    }
}

} // verus!
