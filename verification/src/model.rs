//! What a conversion computes, as mathematics.

use vstd::prelude::*;

use crate::abstrakt::{Abstract, Port, PortKind, Side};
use crate::cell::{Cell, CellRef, Instance, Library};
use crate::coords::{fits, half, Dir, PrimPitches, UnitSpeced, Xy};
use crate::edits::{
    apply_all, draws_via, edit_in_range, reached, via_in_range, Landing, TrackEdit,
};
use crate::error::{ErrorView, LayoutResult};
use crate::outline::Outline;
use crate::raw::{
    CellView, ElementView, InstanceView, Layer, LayerKey, LayerPurpose, LibraryView, ShapeView,
};
use crate::stack::{ValidMetalLayer, ValidStack};
use crate::tracks::{SegmentView, TrackView};
use crate::validate::{ValidAssign, ValidTrackLoc};

verus! {

/// The error of the first result that is one.
pub open spec fn first_error<T>(results: Seq<LayoutResult<T>>) -> Option<ErrorView>
    decreases results.len(),
{
    if results.len() == 0 {
        None
    } else {
        match first_error(results.drop_last()) {
            Some(e) => Some(e),
            None => match results.last() {
                Ok(_) => None,
                Err(e) => Some(e@),
            },
        }
    }
}

/// One more result.
pub proof fn first_error_step<T>(results: Seq<LayoutResult<T>>, i: int)
    requires
        0 <= i < results.len(),
    ensures
        first_error(results.take(i + 1)) == match first_error(results.take(i)) {
            Some(e) => Some(e),
            None => match results[i] {
                Ok(_) => None,
                Err(e) => Some(e@),
            },
        },
{
    assert(results.take(i + 1).drop_last() =~= results.take(i));
    assert(results.take(i + 1).last() == results[i]);
}

/// The first error decides: later results make no difference.
pub proof fn first_error_decides<T>(results: Seq<LayoutResult<T>>, i: int)
    requires
        0 <= i <= results.len(),
        first_error(results.take(i)) is Some,
    ensures
        first_error(results) == first_error(results.take(i)),
    decreases results.len() - i,
{
    if i == results.len() {
        assert(results.take(i) =~= results);
    } else {
        first_error_step(results, i);
        first_error_decides(results, i + 1);
    }
}

/// The values of results none of which is an error.
pub open spec fn accepted<T>(results: Seq<LayoutResult<T>>) -> Seq<T> {
    results.map_values(|r: LayoutResult<T>| r->Ok_0)
}

/// A placed instance: where it is, and the outline and height of its definition.
pub struct Placed {
    pub loc: Xy<PrimPitches>,
    pub outline: Outline,
    pub top_layer: usize,
}

/// What a cell puts on one metal layer.
pub struct LayerInput {
    /// The instances that come up to the layer.
    pub placed: Seq<Placed>,
    pub cuts: Seq<ValidTrackLoc>,
    /// The assignments for which the layer is the lower one.
    pub bots: Seq<Option<ValidAssign>>,
    /// The assignments for which the layer is the upper one.
    pub tops: Seq<Option<ValidAssign>>,
}

/// What a cell puts on one period of a metal layer.
pub struct PeriodInput {
    /// The regions, in primitive pitches, that instances block.
    pub blockages: Seq<(PrimPitches, PrimPitches)>,
    pub cuts: Seq<ValidTrackLoc>,
    pub bots: Seq<Option<ValidAssign>>,
    pub tops: Seq<Option<ValidAssign>>,
}

/// Whether signal track number `track` belongs to period number `periodnum` of `layer`.
pub open spec fn in_period(layer: ValidMetalLayer, periodnum: int, track: int) -> bool {
    let nsig = layer.period.signals@.len();
    periodnum * nsig <= track < (periodnum + 1) * nsig
}

/// Which signal of its period the track of `loc` is.
pub open spec fn signal_of(layer: ValidMetalLayer, loc: ValidTrackLoc) -> int {
    loc.track as int % (layer.period.signals@.len() as int)
}

/// The instances that come up to metal layer `index`.
pub open spec fn up_to_layer(index: int) -> spec_fn(Placed) -> bool {
    |p: Placed| p.top_layer >= index
}

/// The cuts on metal layer `index`.
pub open spec fn on_layer(index: int) -> spec_fn(ValidTrackLoc) -> bool {
    |c: ValidTrackLoc| c.layer == index
}

/// The assignments whose lower layer is number `index`.
pub open spec fn bot_on_layer(index: int) -> spec_fn(ValidAssign) -> bool {
    |a: ValidAssign| a.bot.layer == index
}

/// The assignments whose upper layer is number `index`.
pub open spec fn top_on_layer(index: int) -> spec_fn(ValidAssign) -> bool {
    |a: ValidAssign| a.top.layer == index
}

/// Present assignments.
pub open spec fn present(assigns: Seq<ValidAssign>) -> Seq<Option<ValidAssign>> {
    assigns.map_values(|a: ValidAssign| Some(a))
}

/// The cuts in period number `periodnum` of `layer`.
pub open spec fn cut_in_period(
    layer: ValidMetalLayer,
    periodnum: int,
) -> spec_fn(ValidTrackLoc) -> bool {
    |c: ValidTrackLoc| in_period(layer, periodnum, c.track as int)
}

/// The assignments whose lower track is in period number `periodnum` of `layer`.
pub open spec fn bot_in_period(
    layer: ValidMetalLayer,
    periodnum: int,
) -> spec_fn(Option<ValidAssign>) -> bool {
    |a: Option<ValidAssign>| in_period(layer, periodnum, a->0.bot.track as int)
}

/// The assignments whose upper track is in period number `periodnum` of `layer`.
pub open spec fn top_in_period(
    layer: ValidMetalLayer,
    periodnum: int,
) -> spec_fn(Option<ValidAssign>) -> bool {
    |a: Option<ValidAssign>| in_period(layer, periodnum, a->0.top.track as int)
}

/// The region along `dir` that a placed instance takes up.
pub open spec fn blocked_region(p: Placed, dir: Dir) -> (PrimPitches, PrimPitches) {
    let from = p.loc.along(dir);
    (from, PrimPitches { dir: from.dir, num: (from.num + p.outline.extent(dir).num) as isize })
}

/// The regions along `dir` that placed instances take up.
pub open spec fn blocked_regions(placed: Seq<Placed>, dir: Dir) -> Seq<
    (PrimPitches, PrimPitches),
> {
    placed.map_values(|p: Placed| blocked_region(p, dir))
}

/// The mathematical value of a [`crate::rawconv::RawConverter`].
pub struct ConverterView {
    pub lib: Library,
    pub stack: ValidStack,
    /// The raw layers.
    pub layers: Seq<Layer>,
    /// The key of the raw layer of each metal layer.
    pub keys: Seq<LayerKey>,
    /// The key of the raw layer for outlines.
    pub boundary: LayerKey,
}

/// Distances.
impl ConverterView {
    /// The distance `pt` in database units.
    pub open spec fn db(self, pt: UnitSpeced) -> int {
        match pt {
            UnitSpeced::DbUnits(u) => u.0 as int,
            UnitSpeced::PrimPitches(p) => self.prim(p),
            UnitSpeced::LayerPitches(_) => arbitrary(),
        }
    }

    /// Whether `pt` can be converted to database units.
    pub open spec fn db_ready(self, pt: UnitSpeced) -> bool {
        !(pt is LayerPitches) && fits(self.db(pt))
    }

    /// A number of primitive pitches in database units.
    pub open spec fn prim(self, p: PrimPitches) -> int {
        p.num * self.stack.prim.pitches.along(p.dir).0
    }

    /// Whether a number of primitive pitches can be converted to database units.
    pub open spec fn prim_ready(self, p: PrimPitches) -> bool {
        fits(self.prim(p))
    }
}

/// Outlines.
impl ConverterView {
    /// The corners of an outline: from the origin along the staircase, and back to the vertical
    /// axis.
    pub open spec fn corners(self, outline: Outline) -> Seq<(int, int)> {
        let n = outline.x@.len();
        Seq::new(
            2 * n + 2,
            |i: int|
                (
                    if i == 0 || i == 2 * n + 1 {
                        0
                    } else {
                        self.prim(outline.x@[(i - 1) / 2])
                    },
                    if i <= 1 {
                        0
                    } else {
                        self.prim(outline.y@[(i - 2) / 2])
                    },
                ),
        )
    }

    /// Whether an outline can be converted.
    pub open spec fn outline_ready(self, outline: Outline) -> bool {
        &&& outline.x@.len() <= outline.y@.len()
        &&& forall|i: int|
            0 <= i < outline.x@.len() ==> self.prim_ready(#[trigger] outline.x@[i])
        &&& forall|i: int|
            0 <= i < outline.x@.len() ==> self.prim_ready(#[trigger] outline.y@[i])
    }

    /// The polygon of an outline, on the boundary layer.
    pub open spec fn outline_element(self, outline: Outline) -> ElementView {
        ElementView {
            net: None,
            layer: self.boundary,
            purpose: LayerPurpose::Outline,
            inner: ShapeView::Poly { pts: self.corners(outline) },
        }
    }
}

/// Abstracts.
impl ConverterView {
    /// The distances, along the track, between which a port on side `side` lies.
    pub open spec fn port_reach(self, outline: Outline, dir: Dir, side: Side) -> (int, int) {
        match side {
            Side::BottomOrLeft => (0, 100),
            Side::TopOrRight => {
                let outside = self.prim(outline.extent(dir));
                (outside - 100, outside)
            },
        }
    }

    /// The shape of a port of `abs`.
    pub open spec fn port_element(self, abs: Abstract, port: Port) -> ElementView {
        let (layer, track, side) = (
            port.kind->Edge_layer,
            port.kind->Edge_track,
            port.kind->Edge_side,
        );
        let metal = self.stack.metals@[layer as int];
        let (from, to) = self.port_reach(abs.outline, metal.spec.dir, side);
        let (start, stop) = (metal.signal_start(track as int), metal.signal_stop(track as int));
        ElementView {
            net: Some(port.name@),
            layer: self.keys[layer as int],
            purpose: LayerPurpose::Drawing,
            inner: match metal.spec.dir {
                Dir::Horiz => ShapeView::Rect { p0: (from, start), p1: (to, stop) },
                Dir::Vert => ShapeView::Rect { p0: (start, from), p1: (stop, to) },
            },
        }
    }

    /// Whether the span of signal track `track` of metal layer `layer` can be computed.
    pub open spec fn track_ready(self, layer: int, track: int) -> bool {
        &&& layer < self.stack.metals@.len()
        &&& self.stack.metals@[layer].period.signals@.len() > 0
        &&& fits(self.stack.metals@[layer].signal_start(track))
        &&& fits(self.stack.metals@[layer].signal_stop(track))
    }

    /// Whether a port of `abs` can be converted.
    pub open spec fn port_ready(self, abs: Abstract, port: Port) -> bool {
        match port.kind {
            PortKind::Edge { layer, track, side } => {
                let dir = self.stack.metals@[layer as int].spec.dir;
                &&& layer < self.keys.len()
                &&& self.track_ready(layer as int, track as int)
                &&& side is TopOrRight ==> {
                    &&& abs.outline.reaches(dir)
                    &&& self.prim_ready(abs.outline.extent(dir))
                    &&& fits(self.prim(abs.outline.extent(dir)) - 100)
                }
            },
            _ => false,
        }
    }

    /// Whether an abstract can be converted.
    pub open spec fn abstract_ready(self, abs: Abstract) -> bool {
        &&& self.outline_ready(abs.outline)
        &&& forall|i: int|
            0 <= i < abs.ports@.len() ==> self.port_ready(abs, #[trigger] abs.ports@[i])
    }

    /// The cell that an abstract is converted to: its outline, and a shape for each port.
    pub open spec fn abstract_cell(self, abs: Abstract) -> CellView {
        CellView {
            name: abs.name@,
            insts: seq![],
            elems: seq![self.outline_element(abs.outline)] + abs.ports@.map_values(
                |port: Port| self.port_element(abs, port),
            ),
        }
    }

    /// The cells that abstracts are converted to.
    pub open spec fn abstract_cells(self, abstracts: Seq<Abstract>) -> Seq<CellView> {
        abstracts.map_values(|abs: Abstract| self.abstract_cell(abs))
    }
}

/// Instances.
impl ConverterView {
    /// Whether `r` refers to something that the library holds, if it refers to its contents at all.
    pub open spec fn resolves(self, r: CellRef) -> bool {
        match r {
            CellRef::Cell(k) => k.index < self.lib.cells@.len(),
            CellRef::Abstract(k) => k.index < self.lib.abstracts@.len(),
            CellRef::Name(_) => true,
        }
    }

    /// An instance with its definition.
    pub open spec fn place(self, inst: Instance) -> Placed {
        match inst.cell {
            CellRef::Cell(k) => {
                let def = self.lib.cells@[k.index as int];
                Placed { loc: inst.loc, outline: def.outline, top_layer: def.top_layer }
            },
            CellRef::Abstract(k) => {
                let def = self.lib.abstracts@[k.index as int];
                Placed { loc: inst.loc, outline: def.outline, top_layer: def.top_layer }
            },
            CellRef::Name(_) => arbitrary(),
        }
    }

    /// Instances with their definitions.
    pub open spec fn place_all(self, insts: Seq<Instance>) -> Seq<Placed> {
        insts.map_values(|inst: Instance| self.place(inst))
    }

    /// Whether the location of an instance can be converted.
    pub open spec fn instance_ready(self, inst: Instance) -> bool {
        self.prim_ready(inst.loc.x) && self.prim_ready(inst.loc.y)
    }

    /// The raw instance that an instance is converted to.
    pub open spec fn raw_instance(self, inst: Instance) -> InstanceView {
        InstanceView {
            inst_name: inst.inst_name@,
            cell_name: inst.cell_name@,
            cell: inst.cell,
            p0: (self.prim(inst.loc.x), self.prim(inst.loc.y)),
            reflect: inst.reflect,
            angle: inst.angle,
        }
    }

    /// The raw instances that instances are converted to.
    pub open spec fn raw_instances(self, insts: Seq<Instance>) -> Seq<InstanceView> {
        insts.map_values(|inst: Instance| self.raw_instance(inst))
    }

    /// Whether a placed instance overlaps period number `periodnum` of `layer`, across the tracks.
    /// Touching edge-to-edge is not overlapping.
    pub open spec fn intersects(self, p: Placed, layer: ValidMetalLayer, periodnum: int) -> bool {
        let across = layer.spec.dir.opposite();
        let from = self.prim(p.loc.along(across));
        let to = from + self.prim(p.outline.extent(across));
        to > layer.period_start(periodnum) && from < layer.period_start(periodnum + 1)
    }

    /// The placed instances that overlap period number `periodnum` of `layer`.
    pub open spec fn overlapping(
        self,
        layer: ValidMetalLayer,
        periodnum: int,
    ) -> spec_fn(Placed) -> bool {
        |p: Placed| self.intersects(p, layer, periodnum)
    }

    /// Whether it can be decided where a placed instance overlaps the periods of `layer`.
    pub open spec fn intersects_ready(self, p: Placed, layer: ValidMetalLayer) -> bool {
        let across = layer.spec.dir.opposite();
        &&& p.outline.reaches(across)
        &&& self.prim_ready(p.loc.along(across))
        &&& self.prim_ready(p.outline.extent(across))
    }

    /// Whether the region that a placed instance blocks in a period of `layer` can be computed.
    pub open spec fn blockage_ready(self, p: Placed, layer: ValidMetalLayer, periodnum: int) -> bool {
        let dir = layer.spec.dir;
        &&& self.intersects_ready(p, layer)
        &&& self.intersects(p, layer, periodnum) ==> {
            &&& p.outline.reaches(dir)
            &&& fits(p.loc.along(dir).num + p.outline.extent(dir).num)
        }
    }
}

/// Periods.
impl ConverterView {
    /// The part of `input` that belongs to period number `periodnum` of `layer`.
    pub open spec fn period_input(
        self,
        input: LayerInput,
        layer: ValidMetalLayer,
        periodnum: int,
    ) -> PeriodInput {
        PeriodInput {
            blockages: blocked_regions(
                input.placed.filter(self.overlapping(layer, periodnum)),
                layer.spec.dir,
            ),
            cuts: input.cuts.filter(cut_in_period(layer, periodnum)),
            bots: input.bots.filter(bot_in_period(layer, periodnum)),
            tops: input.tops.filter(top_in_period(layer, periodnum)),
        }
    }

    /// Whether `input` can be split into periods of `layer`, as far as number `periodnum`.
    pub open spec fn input_ready(
        self,
        input: LayerInput,
        layer: ValidMetalLayer,
        periodnum: int,
    ) -> bool {
        &&& periodnum < usize::MAX
        &&& (periodnum + 1) * layer.period.signals@.len() <= usize::MAX
        &&& forall|i: int|
            0 <= i < input.placed.len() ==> self.blockage_ready(
                #[trigger] input.placed[i],
                layer,
                periodnum,
            )
        &&& forall|i: int| 0 <= i < input.bots.len() ==> (#[trigger] input.bots[i]) is Some
        &&& forall|i: int| 0 <= i < input.tops.len() ==> (#[trigger] input.tops[i]) is Some
    }

    /// The edit for a blocked region.
    pub open spec fn block_edit(self, region: (PrimPitches, PrimPitches)) -> TrackEdit {
        TrackEdit::Block { start: self.prim(region.0), stop: self.prim(region.1) }
    }

    /// The edit for a cut: the cut size, centred on the location.
    pub open spec fn cut_edit(self, layer: ValidMetalLayer, cut: ValidTrackLoc) -> TrackEdit {
        let halfcut = half(layer.spec.cutsize.0 as int);
        TrackEdit::Cut {
            signal: signal_of(layer, cut),
            start: cut.dist.0 - halfcut,
            stop: cut.dist.0 + halfcut,
        }
    }

    /// The corners of the via for an assignment whose lower layer is number `index`. The via is
    /// centred on the distance along the lower track and the distance along the upper one; which
    /// way the layers run is not taken into account.
    pub open spec fn via_corners(self, index: int, assign: ValidAssign) -> (
        (int, int),
        (int, int),
    ) {
        let size = self.stack.vias@[index].size;
        let (dx, dy) = (half(size.x.0 as int), half(size.y.0 as int));
        let (x, y) = (assign.bot.dist.0, assign.top.dist.0);
        ((x - dx, y - dy), (x + dx, y + dy))
    }

    /// The edit for an assignment on its lower layer.
    pub open spec fn bot_edit(
        self,
        layer: ValidMetalLayer,
        assign: Option<ValidAssign>,
    ) -> TrackEdit {
        match assign {
            Some(a) => TrackEdit::Land {
                signal: signal_of(layer, a.bot),
                dist: a.bot.dist.0 as int,
                net: a.net@,
                missing: ErrorView::Str("COULDNT FIND SEGMENT"@),
                landing: if self.stack.vias@[layer.index as int].raw is Some {
                    let (p0, p1) = self.via_corners(layer.index as int, a);
                    Landing::Via { p0, p1 }
                } else {
                    Landing::NoViaLayer
                },
            },
            None => TrackEdit::Fail {
                error: ErrorView::Str("Internal error: invalid assignment"@),
            },
        }
    }

    /// The edit for an assignment on its upper layer.
    pub open spec fn top_edit(
        self,
        layer: ValidMetalLayer,
        assign: Option<ValidAssign>,
    ) -> TrackEdit {
        match assign {
            Some(a) => TrackEdit::Land {
                signal: signal_of(layer, a.top),
                dist: a.top.dist.0 as int,
                net: a.net@,
                missing: ErrorView::Str("Internal error: invalid segment"@),
                landing: Landing::Plain,
            },
            None => TrackEdit::Fail {
                error: ErrorView::Str("Internal error: invalid assignment"@),
            },
        }
    }

    /// The edits that carve instances and cuts out of the tracks.
    pub open spec fn carving(self, layer: ValidMetalLayer, input: PeriodInput) -> Seq<TrackEdit> {
        input.blockages.map_values(|b: (PrimPitches, PrimPitches)| self.block_edit(b))
            + input.cuts.map_values(|c: ValidTrackLoc| self.cut_edit(layer, c))
    }

    /// The edits up to the last assignment from below.
    pub open spec fn landing(self, layer: ValidMetalLayer, input: PeriodInput) -> Seq<TrackEdit> {
        self.carving(layer, input) + input.bots.map_values(
            |a: Option<ValidAssign>| self.bot_edit(layer, a),
        )
    }

    /// All edits of a period, in order: blockages, cuts, assignments from below, assignments from
    /// above.
    pub open spec fn edits(self, layer: ValidMetalLayer, input: PeriodInput) -> Seq<TrackEdit> {
        self.landing(layer, input) + input.tops.map_values(|a: Option<ValidAssign>| self.top_edit(layer, a))
    }

    /// The rectangle of one wire of a track.
    pub open spec fn wire_element(
        self,
        index: int,
        track: TrackView,
        seg: SegmentView,
    ) -> ElementView {
        ElementView {
            net: seg.net,
            layer: self.keys[index],
            purpose: LayerPurpose::Drawing,
            inner: match track.dir {
                Dir::Horiz => ShapeView::Rect {
                    p0: (seg.start, track.start),
                    p1: (seg.stop, track.start + track.width),
                },
                Dir::Vert => ShapeView::Rect {
                    p0: (track.start, seg.start),
                    p1: (track.start + track.width, seg.stop),
                },
            },
        }
    }

    /// The rectangles of the wires of a track on metal layer `index`.
    pub open spec fn track_elements(self, index: int, track: TrackView) -> Seq<ElementView> {
        track.segments.map_values(|seg: SegmentView| self.wire_element(index, track, seg))
    }

    /// Whether the wires of a track on metal layer `index` can be drawn.
    pub open spec fn wires_ready(self, index: int, track: TrackView) -> bool {
        track.segments.len() > 0 ==> index < self.keys.len() && fits(track.start + track.width)
    }

    /// The rectangles of the wires of `tracks`, track by track.
    pub open spec fn tracks_elements(self, index: int, tracks: Seq<TrackView>) -> Seq<ElementView>
        decreases tracks.len(),
    {
        if tracks.len() == 0 {
            seq![]
        } else {
            self.tracks_elements(index, tracks.drop_last()) + self.track_elements(
                index,
                tracks.last(),
            )
        }
    }

    /// The rectangle of the via for an assignment whose lower layer is number `index`.
    pub open spec fn via_element(self, index: int, assign: Option<ValidAssign>) -> ElementView {
        let (p0, p1) = self.via_corners(index, assign->0);
        ElementView {
            net: None,
            layer: self.keys[index],
            purpose: LayerPurpose::Drawing,
            inner: ShapeView::Rect { p0, p1 },
        }
    }

    /// The rectangles of the vias for assignments whose lower layer is number `index`.
    pub open spec fn via_elements(self, index: int, assigns: Seq<Option<ValidAssign>>) -> Seq<
        ElementView,
    > {
        assigns.map_values(|a: Option<ValidAssign>| self.via_element(index, a))
    }

    /// The shapes of period number `periodnum` of `layer`, whose wires run over `span`: its vias,
    /// its rails and its signals.
    pub open spec fn period_outcome(
        self,
        layer: ValidMetalLayer,
        periodnum: int,
        span: int,
        input: PeriodInput,
    ) -> Result<Seq<ElementView>, ErrorView> {
        let index = layer.index as int;
        match apply_all(layer.layer_period(periodnum, span), self.edits(layer, input)) {
            Ok(p) => Ok(
                self.via_elements(index, input.bots)
                    + self.tracks_elements(index, p.rails) + self.tracks_elements(index, p.signals),
            ),
            Err(e) => Err(e),
        }
    }

    /// Whether a period can be converted: every step that is come to names a track and a layer
    /// that exist, and stays within range. A via is come to once the wire for it has been found.
    pub open spec fn period_ready(
        self,
        layer: ValidMetalLayer,
        periodnum: int,
        span: int,
        input: PeriodInput,
    ) -> bool {
        let index = layer.index as int;
        let start = layer.layer_period(periodnum, span);
        let edits = self.edits(layer, input);
        &&& layer.period_fits(periodnum)
        &&& forall|i: int|
            0 <= i < edits.len() && #[trigger] reached(start, edits, i) ==> edit_in_range(
                edits[i],
                layer.period.signals@.len() as int,
            )
        &&& forall|i: int|
            0 < i <= edits.len() && #[trigger] reached(start, edits, i) && draws_via(edits[i - 1])
                ==> index < self.keys.len() && via_in_range(edits[i - 1])
        &&& reached(start, edits, self.carving(layer, input).len() as int) ==> index
            < self.stack.vias@.len()
        &&& apply_all(start, edits) matches Ok(p) ==> {
            &&& forall|k: int|
                0 <= k < p.rails.len() ==> self.wires_ready(index, #[trigger] p.rails[k])
            &&& forall|k: int|
                0 <= k < p.signals.len() ==> self.wires_ready(index, #[trigger] p.signals[k])
        }
    }
}

/// Layers.
impl ConverterView {
    /// The length of the wires on `layer` of a cell with outline `outline`.
    pub open spec fn layer_span(self, layer: ValidMetalLayer, outline: Outline) -> int {
        match layer.spec.dir {
            Dir::Horiz => self.prim(outline.x@[0]),
            Dir::Vert => self.prim(outline.y@[0]),
        }
    }

    /// The extent of a cell with outline `outline` across the tracks of `layer`.
    pub open spec fn layer_breadth(self, layer: ValidMetalLayer, outline: Outline) -> int {
        match layer.spec.dir {
            Dir::Horiz => self.prim(outline.y@[0]),
            Dir::Vert => self.prim(outline.x@[0]),
        }
    }

    /// The number of periods of `layer` in a cell with outline `outline`.
    pub open spec fn nperiods(self, layer: ValidMetalLayer, outline: Outline) -> int {
        self.layer_breadth(layer, outline) / (layer.pitch.0 as int)
    }

    /// Whether a cell with outline `outline` holds a whole number of periods of `layer`.
    pub open spec fn layer_ready(self, layer: ValidMetalLayer, outline: Outline) -> bool {
        &&& outline.x@.len() > 0
        &&& outline.y@.len() > 0
        &&& self.prim_ready(outline.x@[0])
        &&& self.prim_ready(outline.y@[0])
        &&& layer.pitch.0 != 0
        &&& self.layer_breadth(layer, outline) % (layer.pitch.0 as int) == 0
        &&& 0 <= self.nperiods(layer, outline) <= isize::MAX
    }
}

/// Cells.
impl ConverterView {
    /// The error of a cell with an instance of something that has only a name.
    pub open spec fn instances_error(self, cell: Cell) -> Option<ErrorView> {
        if exists|i: int|
            0 <= i < cell.instances@.len() && (#[trigger] cell.instances@[i]).cell is Name {
            Some(ErrorView::Str("FIXME?"@))
        } else {
            None
        }
    }

    /// The error that keeps a cell from being arranged by layer: that of an instance, of a cut or
    /// of an assignment, whichever comes first.
    pub open spec fn arrange_error(self, cell: Cell) -> Option<ErrorView> {
        match self.instances_error(cell) {
            Some(e) => Some(e),
            None => match first_error(cell.cuts@) {
                Some(e) => Some(e),
                None => first_error(cell.assignments@),
            },
        }
    }

    /// Whether a cell can be arranged by layer: every instance, cut and assignment that is come to
    /// refers to a definition or a layer that exists.
    pub open spec fn arrange_ready(self, cell: Cell) -> bool {
        &&& forall|i: int|
            0 <= i < cell.instances@.len() && (forall|j: int|
                0 <= j < i ==> !((#[trigger] cell.instances@[j]).cell is Name)) ==> self.resolves(
                (#[trigger] cell.instances@[i]).cell,
            )
        &&& self.instances_error(cell) is None ==> forall|i: int|
            0 <= i < cell.cuts@.len() && first_error(cell.cuts@.take(i)) is None ==> (
            #[trigger] cell.cuts@[i] matches Ok(c) ==> c.layer < cell.top_layer)
        &&& self.instances_error(cell) is None && first_error(cell.cuts@) is None ==> forall|i: int|
            0 <= i < cell.assignments@.len() && first_error(cell.assignments@.take(i)) is None ==> (
            #[trigger] cell.assignments@[i] matches Ok(a) ==> {
                &&& a.bot.layer < cell.top_layer
                &&& a.top.layer < cell.top_layer
                &&& i < 0xffff_fffe
            })
    }

    /// What a cell puts on `layer`.
    pub open spec fn cell_input(self, cell: Cell, layer: ValidMetalLayer) -> LayerInput {
        LayerInput {
            placed: self.place_all(cell.instances@).filter(up_to_layer(layer.index as int)),
            cuts: accepted(cell.cuts@).filter(on_layer(layer.index as int)),
            bots: present(accepted(cell.assignments@).filter(bot_on_layer(layer.index as int))),
            tops: present(accepted(cell.assignments@).filter(top_on_layer(layer.index as int))),
        }
    }

    /// What a cell puts on period number `periodnum` of metal layer `layernum`.
    pub open spec fn cell_period_input(self, cell: Cell, layernum: int, periodnum: int) -> PeriodInput {
        let layer = self.stack.metals@[layernum];
        self.period_input(self.cell_input(cell, layer), layer, periodnum)
    }

    /// The shapes of a cell in period number `periodnum` of metal layer `layernum`.
    pub open spec fn cell_period(self, cell: Cell, layernum: int, periodnum: int) -> Result<
        Seq<ElementView>,
        ErrorView,
    > {
        let layer = self.stack.metals@[layernum];
        self.period_outcome(
            layer,
            periodnum,
            self.layer_span(layer, cell.outline),
            self.cell_period_input(cell, layernum, periodnum),
        )
    }

    /// Whether a cell can be converted in period number `periodnum` of metal layer `layernum`.
    pub open spec fn cell_period_ready(self, cell: Cell, layernum: int, periodnum: int) -> bool {
        let layer = self.stack.metals@[layernum];
        &&& self.input_ready(self.cell_input(cell, layer), layer, periodnum)
        &&& self.period_ready(
            layer,
            periodnum,
            self.layer_span(layer, cell.outline),
            self.cell_period_input(cell, layernum, periodnum),
        )
    }

    /// The shapes of a cell in the first `n` periods of metal layer `layernum`, or the first error.
    pub open spec fn cell_periods(self, cell: Cell, layernum: int, n: int) -> Result<
        Seq<ElementView>,
        ErrorView,
    >
        decreases n,
    {
        if n <= 0 {
            Ok(seq![])
        } else {
            match self.cell_periods(cell, layernum, n - 1) {
                Ok(elems) => match self.cell_period(cell, layernum, n - 1) {
                    Ok(more) => Ok(elems + more),
                    Err(e) => Err(e),
                },
                Err(e) => Err(e),
            }
        }
    }

    /// The shapes of a cell on metal layer `layernum`, or the first error.
    pub open spec fn cell_layer(self, cell: Cell, layernum: int) -> Result<
        Seq<ElementView>,
        ErrorView,
    > {
        self.cell_periods(
            cell,
            layernum,
            self.nperiods(self.stack.metals@[layernum], cell.outline),
        )
    }

    /// An error in one of the first periods is the error of the layer.
    pub proof fn cell_periods_fail_early(self, cell: Cell, layernum: int, i: int, n: int)
        requires
            0 <= i <= n,
            self.cell_periods(cell, layernum, i) is Err,
        ensures
            self.cell_periods(cell, layernum, n) == self.cell_periods(cell, layernum, i),
        decreases n - i,
    {
        if i < n {
            self.cell_periods_fail_early(cell, layernum, i, n - 1);
        }
    }

    /// Whether a cell can be converted on metal layer `layernum`.
    pub open spec fn cell_layer_ready(self, cell: Cell, layernum: int) -> bool {
        let layer = self.stack.metals@[layernum];
        &&& layernum < self.stack.metals@.len()
        &&& self.layer_ready(layer, cell.outline)
        &&& layer.index < cell.top_layer || self.nperiods(layer, cell.outline) == 0
        &&& forall|p: int|
            0 <= p < self.nperiods(layer, cell.outline) && #[trigger] self.cell_periods(
                cell,
                layernum,
                p,
            ) is Ok ==> self.cell_period_ready(cell, layernum, p)
    }

    /// The shapes of a cell on the lowest `n` metal layers, or the first error.
    pub open spec fn cell_layers(self, cell: Cell, n: int) -> Result<Seq<ElementView>, ErrorView>
        decreases n,
    {
        if n <= 0 {
            Ok(seq![])
        } else {
            match self.cell_layers(cell, n - 1) {
                Ok(elems) => match self.cell_layer(cell, n - 1) {
                    Ok(more) => Ok(elems + more),
                    Err(e) => Err(e),
                },
                Err(e) => Err(e),
            }
        }
    }

    /// An error on one of the lowest layers is the error of the cell.
    pub proof fn cell_layers_fail_early(self, cell: Cell, i: int, n: int)
        requires
            0 <= i <= n,
            self.cell_layers(cell, i) is Err,
        ensures
            self.cell_layers(cell, n) == self.cell_layers(cell, i),
        decreases n - i,
    {
        if i < n {
            self.cell_layers_fail_early(cell, i, n - 1);
        }
    }

    /// What a cell is converted to.
    pub open spec fn cell_outcome(self, cell: Cell) -> Result<CellView, ErrorView> {
        if cell.outline.x@.len() > 1 {
            Err(ErrorView::Str("Non-rectangular outline; conversions not supported (yet)"@))
        } else {
            match self.arrange_error(cell) {
                Some(e) => Err(e),
                None => match self.cell_layers(cell, cell.top_layer as int) {
                    Ok(elems) => Ok(
                        CellView {
                            name: cell.name@,
                            insts: self.raw_instances(cell.instances@),
                            elems: elems.push(self.outline_element(cell.outline)),
                        },
                    ),
                    Err(e) => Err(e),
                },
            }
        }
    }

    /// Whether a cell can be converted: every step that is come to can be taken.
    pub open spec fn cell_ready(self, cell: Cell) -> bool {
        cell.outline.x@.len() <= 1 ==> {
            &&& self.arrange_ready(cell)
            &&& self.arrange_error(cell) is None ==> {
                &&& forall|l: int|
                    0 <= l < cell.top_layer && #[trigger] self.cell_layers(cell, l) is Ok
                        ==> self.cell_layer_ready(cell, l)
                &&& self.cell_layers(cell, cell.top_layer as int) is Ok ==> {
                    &&& self.outline_ready(cell.outline)
                    &&& forall|i: int|
                        0 <= i < cell.instances@.len() ==> self.instance_ready(
                            #[trigger] cell.instances@[i],
                        )
                }
            }
        }
    }
}

/// Libraries.
impl ConverterView {
    /// What the first `n` cells are converted to, or the first error.
    pub open spec fn cells_outcome(self, n: int) -> Result<Seq<CellView>, ErrorView>
        decreases n,
    {
        if n <= 0 {
            Ok(seq![])
        } else {
            match self.cells_outcome(n - 1) {
                Ok(cells) => match self.cell_outcome(self.lib.cells@[n - 1]) {
                    Ok(cell) => Ok(cells.push(cell)),
                    Err(e) => Err(e),
                },
                Err(e) => Err(e),
            }
        }
    }

    /// An error in one of the first cells is the error of the library.
    pub proof fn cells_fail_early(self, i: int, n: int)
        requires
            0 <= i <= n,
            self.cells_outcome(i) is Err,
        ensures
            self.cells_outcome(n) == self.cells_outcome(i),
        decreases n - i,
    {
        if i < n {
            self.cells_fail_early(i, n - 1);
        }
    }

    /// What the library is converted to: its cells, then the abstracts that none of them implements.
    pub open spec fn lib_outcome(self) -> Result<LibraryView, ErrorView> {
        match self.cells_outcome(self.lib.cells@.len() as int) {
            Ok(cells) => Ok(
                LibraryView {
                    name: self.lib.name@,
                    units: self.stack.units,
                    layers: self.layers,
                    cells: cells + self.abstract_cells(
                        self.lib.abstracts@.filter(unimplemented(self.lib)),
                    ),
                },
            ),
            Err(e) => Err(e),
        }
    }

    /// Whether the library can be converted: every step that is come to can be taken.
    pub open spec fn lib_ready(self) -> bool {
        &&& forall|i: int|
            0 <= i < self.lib.cells@.len() && #[trigger] self.cells_outcome(i) is Ok
                ==> self.cell_ready(self.lib.cells@[i])
        &&& self.cells_outcome(self.lib.cells@.len() as int) is Ok ==> forall|i: int|
            0 <= i < self.lib.abstracts@.len() && !implemented(self.lib, self.lib.abstracts@[i])
                ==> self.abstract_ready(#[trigger] self.lib.abstracts@[i])
    }
}

/// Whether a cell of `lib` implements `abs`: one that has its name.
pub open spec fn implemented(lib: Library, abs: Abstract) -> bool {
    exists|i: int| 0 <= i < lib.cells@.len() && (#[trigger] lib.cells@[i]).name@ == abs.name@
}

/// The abstracts that no cell of `lib` implements.
pub open spec fn unimplemented(lib: Library) -> spec_fn(Abstract) -> bool {
    |abs: Abstract| !implemented(lib, abs)
}

/// Whether every metal layer of `stack` has a raw layer.
pub open spec fn metals_have_layers(stack: ValidStack) -> bool {
    forall|i: int|
        0 <= i < stack.metals@.len() ==> (#[trigger] stack.metals@[i]).spec.raw is Some
}

/// The raw layers of the metals of `stack`.
pub open spec fn metal_layers(stack: ValidStack) -> Seq<Layer> {
    stack.metals@.map_values(|m: ValidMetalLayer| m.spec.raw->0)
}

/// The first `n` layer keys.
pub open spec fn layer_keys(n: nat) -> Seq<LayerKey> {
    Seq::new(n, |i: int| LayerKey { index: i as usize })
}

/// The converter for `lib` on `stack`: the metals get the first layers, the boundary the next one.
pub open spec fn converter(lib: Library, stack: ValidStack) -> ConverterView {
    ConverterView {
        lib,
        stack,
        layers: metal_layers(stack).push(stack.boundary_layer->0),
        keys: layer_keys(stack.metals@.len()),
        boundary: LayerKey { index: stack.metals@.len() as usize },
    }
}

/// Whether `lib` can be converted on `stack`: every step that is come to can be taken.
pub open spec fn convert_ready(lib: Library, stack: LayoutResult<ValidStack>) -> bool {
    match stack {
        Err(_) => true,
        Ok(stack) => metals_have_layers(stack) && stack.boundary_layer is Some ==> converter(
            lib,
            stack,
        ).lib_ready(),
    }
}

/// What `lib` is converted to on `stack`, if that is a stack.
pub open spec fn convert_outcome(lib: Library, stack: LayoutResult<ValidStack>) -> Result<
    LibraryView,
    ErrorView,
> {
    match stack {
        Err(e) => Err(e@),
        Ok(stack) => if !metals_have_layers(stack) {
            Err(ErrorView::Str("Error exporting: no raw layer defined"@))
        } else if stack.boundary_layer is None {
            Err(ErrorView::Str("Cannot Convert Abstract to Raw without Boundary Layer"@))
        } else {
            converter(lib, stack).lib_outcome()
        },
    }
}

} // verus!
