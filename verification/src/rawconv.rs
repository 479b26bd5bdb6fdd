//! # Raw-Layout Conversion Module

use vstd::pervasive::unreached;
use vstd::prelude::*;
use vstd::std_specs::convert::IntoSpec;

use crate::abstrakt::{Abstract, PortKind, Side};
use crate::cell::{Cell, CellRef, Instance, Library};
use crate::coords::{scale, DbUnits, Dir, PrimPitches, UnitSpeced, Xy};
use crate::edits::{
    apply, apply_all, apply_all_fails_early, apply_all_step, apply_keeps_tracks, draws_via,
    edit_in_range, reached,
};
use crate::error::{outcome, ErrorView, LayoutError, LayoutResult};
use crate::model::{
    accepted, blocked_regions, bot_in_period, bot_on_layer, convert_outcome, convert_ready,
    converter, cut_in_period, first_error, first_error_decides, first_error_step, implemented,
    layer_keys, metal_layers, metals_have_layers, on_layer, present, top_in_period,
    top_on_layer, unimplemented, up_to_layer, ConverterView,
};
use crate::outline::{HasOutline, Outline};
use crate::raw;
use crate::raw::Point;
use crate::slots::{
    arranged, assign_contents, bot_key_on_layer, insert_arranges, insert_keeps_lookup,
    insert_stores, lookup, stored_by_layer, stores, top_key_on_layer, AssignKey, AssignMap,
};
use crate::stack::{ValidMetalLayer, ValidStack};
use crate::temp::{
    all_placed, defines, reaching, CellDef, TempCell, TempCellLayer, TempInstance, TempPeriod,
};
use crate::tracks::{LayerPeriod, LayerPeriodView, Track};
use crate::validate::{ValidAssign, ValidTrackLoc};
use crate::vecs::{empty_vecs, extend, filter_none, filter_step, push};

verus! {

/// # Converter from [`Library`] and constituent elements to [`raw::Library`]
pub struct RawConverter {
    pub lib: Library,
    pub stack: ValidStack,
    pub rawlayers: raw::Layers,
    pub layerkeys: Vec<raw::LayerKey>,
    pub boundary_layer: raw::LayerKey,
}

impl View for RawConverter {
    type V = ConverterView;

    open spec fn view(&self) -> ConverterView {
        ConverterView {
            lib: self.lib,
            stack: self.stack,
            layers: self.rawlayers.layers@,
            keys: self.layerkeys@,
            boundary: self.boundary_layer,
        }
    }
}

impl RawConverter {
    /// Convert [`Library`] `lib` to a [`raw::Library`]
    /// Consumes `lib` in the process
    ///
    /// `stack` is what the validation of the metal stack came to. Its error, if it is one, is ours.
    pub fn convert(lib: Library, stack: LayoutResult<ValidStack>) -> (r: LayoutResult<raw::Library>)
        requires
            convert_ready(lib, stack),
        ensures
            outcome(r) == convert_outcome(lib, stack),
    {
        let stack = match stack {
            Ok(stack) => stack,
            Err(e) => {
                return Err(e);
            },
        };
        let (rawlayers, layerkeys) = match Self::convert_layers(&stack) {
            Ok(layers) => layers,
            Err(e) => {
                return Err(e);
            },
        };
        let mut rawlayers = rawlayers;
        // Conversion requires our stack specify a `boundary_layer`. If not, fail.
        let boundary = match &stack.boundary_layer {
            Some(layer) => layer.clone(),
            None => {
                return Err(
                    LayoutError::msg("Cannot Convert Abstract to Raw without Boundary Layer"),
                );
            },
        };
        let boundary_layer = rawlayers.add(boundary);
        let rawconv = RawConverter { lib, stack, rawlayers, layerkeys, boundary_layer };
        assert(rawconv@ == converter(lib, stack));
        rawconv.convert_lib()
    }

    /// Convert our stack to [`raw::Layers`]
    pub fn convert_layers(stack: &ValidStack) -> (r: LayoutResult<
        (raw::Layers, Vec<raw::LayerKey>),
    >)
        ensures
            match r {
                Ok((rawlayers, layerkeys)) => {
                    &&& metals_have_layers(*stack)
                    &&& rawlayers.layers@ == metal_layers(*stack)
                    &&& layerkeys@ == layer_keys(stack.metals@.len())
                },
                Err(e) => {
                    &&& !metals_have_layers(*stack)
                    &&& e@ == ErrorView::Str("Error exporting: no raw layer defined"@)
                },
            },
    {
        let mut rawlayers = raw::Layers::default();
        let mut layerkeys: Vec<raw::LayerKey> = Vec::new();
        let mut i: usize = 0;
        while i < stack.metals.len()
            invariant
                i <= stack.metals@.len(),
                forall|k: int| 0 <= k < i ==> (#[trigger] stack.metals@[k]).spec.raw is Some,
                rawlayers.layers@ == metal_layers(*stack).take(i as int),
                layerkeys@ == layer_keys(i as nat),
            decreases stack.metals@.len() - i,
        {
            let rawlayer = match &stack.metals[i].spec.raw {
                Some(r) => r.clone(),
                None => {
                    assert(!metals_have_layers(*stack)) by {
                        assert(stack.metals@[i as int].spec.raw is None);
                    }
                    return Err(LayoutError::msg("Error exporting: no raw layer defined"));
                },
            };
            let key = rawlayers.add(rawlayer);
            layerkeys.push(key);
            i += 1;
            assert(rawlayers.layers@ =~= metal_layers(*stack).take(i as int));
            assert(layerkeys@ =~= layer_keys(i as nat));
        }
        assert(metal_layers(*stack).take(i as int) =~= metal_layers(*stack));
        Ok((rawlayers, layerkeys))
    }

    /// Convert everything in our [`Library`]
    pub fn convert_lib(self) -> (r: LayoutResult<raw::Library>)
        requires
            self@.lib_ready(),
        ensures
            outcome(r) == self@.lib_outcome(),
    {
        let ghost view = self@;
        let mut cells: Vec<raw::Cell> = Vec::new();
        // Convert each defined [Cell] to a [raw::Cell]
        let mut i: usize = 0;
        assert(cells.deep_view() =~= seq![]);
        while i < self.lib.cells.len()
            invariant
                i <= self.lib.cells@.len(),
                view == self@,
                view.lib_ready(),
                view.cells_outcome(i as int) == Ok::<Seq<raw::CellView>, ErrorView>(
                    cells.deep_view(),
                ),
            decreases self.lib.cells@.len() - i,
        {
            assert(view.cell_ready(self.lib.cells@[i as int]));
            match self.convert_cell(&self.lib.cells[i]) {
                Ok(cell) => push(&mut cells, cell),
                Err(e) => {
                    proof {
                        view.cells_fail_early(i + 1, self.lib.cells@.len() as int);
                    }
                    return Err(e);
                },
            }
            i += 1;
        }
        // And convert each (un-implemented) Abstract as a boundary
        let ghost defined = cells.deep_view();
        let ghost abstracts = self.lib.abstracts@;
        let ghost keep = unimplemented(self.lib);
        proof {
            filter_none(abstracts, keep);
            assert(cells.deep_view() =~= defined + view.abstract_cells(
                abstracts.take(0).filter(keep),
            ));
        }
        let mut j: usize = 0;
        while j < self.lib.abstracts.len()
            invariant
                j <= self.lib.abstracts@.len(),
                view == self@,
                view.lib_ready(),
                view.cells_outcome(self.lib.cells@.len() as int) is Ok,
                abstracts == self.lib.abstracts@,
                keep == unimplemented(self.lib),
                cells.deep_view() == defined + view.abstract_cells(
                    abstracts.take(j as int).filter(keep),
                ),
            decreases self.lib.abstracts@.len() - j,
        {
            let abs = &self.lib.abstracts[j];
            let ghost before = abstracts.take(j as int).filter(keep);
            proof {
                filter_step(abstracts, keep, j as int);
            }
            // Skip those whose name is already defined
            if !self.is_implemented(abs) {
                assert(view.abstract_ready(abstracts[j as int]));
                match self.convert_abstract(abs) {
                    Ok(cell) => push(&mut cells, cell),
                    Err(e) => {
                        return Err(e);
                    },
                }
                assert(view.abstract_cells(before.push(*abs)) =~= view.abstract_cells(before).push(
                    view.abstract_cell(*abs),
                ));
            }
            j += 1;
        }
        assert(abstracts.take(j as int) =~= abstracts);
        Ok(
            raw::Library {
                name: self.lib.name,
                units: self.stack.units,
                layers: self.rawlayers,
                cells,
            },
        )
    }

    /// Whether a cell of our [`Library`] has the name of `abs`
    fn is_implemented(&self, abs: &Abstract) -> (b: bool)
        ensures
            b == implemented(self.lib, *abs),
    {
        let mut i: usize = 0;
        while i < self.lib.cells.len()
            invariant
                i <= self.lib.cells@.len(),
                forall|k: int| 0 <= k < i ==> (#[trigger] self.lib.cells@[k]).name@ != abs.name@,
            decreases self.lib.cells@.len() - i,
        {
            if self.lib.cells[i].name == abs.name {
                return true;
            }
            i += 1;
        }
        false
    }

    /// Convert the periods of one metal layer
    fn convert_cell_layer(
        &self,
        cell: &Cell,
        layernum: usize,
        temp_layer: &TempCellLayer,
    ) -> (r: LayoutResult<Vec<raw::Element>>)
        requires
            self@.cell_layer_ready(*cell, layernum as int),
            *temp_layer.layer == self.stack.metals@[layernum as int],
            temp_layer.nperiods == self@.nperiods(*temp_layer.layer, cell.outline),
            temp_layer.span.0 == self@.layer_span(*temp_layer.layer, cell.outline),
            temp_layer.nperiods > 0 ==> {
                &&& temp_layer.cell.has_layer(temp_layer.layer.index as int)
                &&& temp_layer.input() == self@.cell_input(*cell, *temp_layer.layer)
            },
        ensures
            outcome(r) == self@.cell_layer(*cell, layernum as int),
    {
        let ghost l = layernum as int;
        let mut elems: Vec<raw::Element> = Vec::new();
        assert(elems.deep_view() =~= seq![]);
        let mut periodnum: usize = 0;
        // Convert each "layer period" one at a time
        while periodnum < temp_layer.nperiods
            invariant
                periodnum <= temp_layer.nperiods,
                l == layernum,
                self@.cell_layer_ready(*cell, l),
                *temp_layer.layer == self.stack.metals@[l],
                temp_layer.nperiods == self@.nperiods(*temp_layer.layer, cell.outline),
                temp_layer.span.0 == self@.layer_span(*temp_layer.layer, cell.outline),
                temp_layer.nperiods > 0 ==> {
                    &&& temp_layer.cell.has_layer(temp_layer.layer.index as int)
                    &&& temp_layer.input() == self@.cell_input(*cell, *temp_layer.layer)
                },
                self@.cell_periods(*cell, l, periodnum as int) == Ok::<
                    Seq<raw::ElementView>,
                    ErrorView,
                >(elems.deep_view()),
            decreases temp_layer.nperiods - periodnum,
        {
            assert(self@.cell_period_ready(*cell, l, periodnum as int));
            // Re-organize into the relevant objects for this "layer period"
            let temp_period = self.temp_cell_layer_period(temp_layer, periodnum);
            // And finally start doing stuff!
            match self.convert_cell_layer_period(&temp_period) {
                Ok(more) => extend(&mut elems, more),
                Err(e) => {
                    proof {
                        self@.cell_periods_fail_early(
                            *cell,
                            l,
                            periodnum + 1,
                            temp_layer.nperiods as int,
                        );
                    }
                    return Err(e);
                },
            }
            periodnum += 1;
        }
        Ok(elems)
    }

    /// Convert to a raw layout cell
    pub fn convert_cell(&self, cell: &Cell) -> (r: LayoutResult<raw::Cell>)
        requires
            self@.cell_ready(*cell),
        ensures
            outcome(r) == self@.cell_outcome(*cell),
    {
        if cell.outline.x.len() > 1 {
            return Err(
                LayoutError::msg("Non-rectangular outline; conversions not supported (yet)"),
            );
        }
        let mut elems: Vec<raw::Element> = Vec::new();
        assert(elems.deep_view() =~= seq![]);
        // Re-organize the cell into the format most helpful here
        let temp_cell = match self.temp_cell(cell) {
            Ok(temp_cell) => temp_cell,
            Err(e) => {
                return Err(e);
            },
        };
        // Convert a layer at a time, starting from bottom
        let mut layernum: usize = 0;
        while layernum < cell.top_layer
            invariant
                layernum <= cell.top_layer,
                cell.outline.x@.len() <= 1,
                self@.arrange_error(*cell) is None,
                self@.cell_ready(*cell),
                *temp_cell.cell == *cell,
                temp_cell.cuts@.len() == cell.top_layer,
                temp_cell.top_assns@.len() == cell.top_layer,
                temp_cell.bot_assns@.len() == cell.top_layer,
                forall|layer: ValidMetalLayer|
                    layer.index < cell.top_layer ==> #[trigger] temp_cell.input(layer)
                        == self@.cell_input(*cell, layer),
                self@.cell_layers(*cell, layernum as int) == Ok::<
                    Seq<raw::ElementView>,
                    ErrorView,
                >(elems.deep_view()),
            decreases cell.top_layer - layernum,
        {
            assert(self@.cell_layer_ready(*cell, layernum as int));
            // Organize the cell/layer combo into temporary conversion format
            let temp_layer = self.temp_cell_layer(&temp_cell, &self.stack.metals[layernum]);
            match self.convert_cell_layer(cell, layernum, &temp_layer) {
                Ok(more) => extend(&mut elems, more),
                Err(e) => {
                    proof {
                        self@.cell_layers_fail_early(
                            *cell,
                            layernum + 1,
                            cell.top_layer as int,
                        );
                    }
                    return Err(e);
                },
            }
            layernum += 1;
        }
        // Convert our [Outline] into a polygon
        match self.convert_outline(cell) {
            Ok(elem) => push(&mut elems, elem),
            Err(e) => {
                return Err(e);
            },
        }
        // Convert our [Instance]s
        let ghost expected = self@.raw_instances(cell.instances@);
        let mut insts: Vec<raw::Instance> = Vec::new();
        assert(insts.deep_view() =~= expected.take(0));
        let mut i: usize = 0;
        while i < cell.instances.len()
            invariant
                i <= cell.instances@.len(),
                forall|k: int|
                    0 <= k < cell.instances@.len() ==> self@.instance_ready(
                        #[trigger] cell.instances@[k],
                    ),
                expected == self@.raw_instances(cell.instances@),
                insts.deep_view() == expected.take(i as int),
            decreases cell.instances@.len() - i,
        {
            match self.convert_instance(&cell.instances[i]) {
                Ok(inst) => push(&mut insts, inst),
                Err(e) => {
                    return Err(e);
                },
            }
            assert(insts.deep_view() =~= expected.take(i + 1));
            i += 1;
        }
        assert(expected.take(i as int) =~= expected);
        // Aaaand create & return our new [raw::Cell]
        Ok(raw::Cell { name: cell.name.clone(), insts, elems })
    }

    /// Convert an [`Instance`], scaling its location by our pitches
    pub fn convert_instance(&self, inst: &Instance) -> (r: LayoutResult<raw::Instance>)
        requires
            self@.instance_ready(*inst),
        ensures
            outcome(r) == Ok::<raw::InstanceView, ErrorView>(self@.raw_instance(*inst)),
    {
        // Primarily scale the location of each instance by our pitches
        Ok(
            raw::Instance {
                inst_name: inst.inst_name.clone(),
                cell_name: inst.cell_name.clone(),
                cell: inst.cell.clone(),
                p0: self.convert_xy(&inst.loc),
                reflect: inst.reflect,
                angle: inst.angle,
            },
        )
    }

    /// Look up the definition of each instance of `cell`
    fn temp_instances<'a>(&'a self, cell: &'a Cell) -> (r: LayoutResult<Vec<TempInstance<'a>>>)
        requires
            self@.arrange_ready(*cell),
        ensures
            match self@.instances_error(*cell) {
                Some(error) => r matches Err(e) && e@ == error,
                None => r matches Ok(t) && {
                    &&& t@.len() == cell.instances@.len()
                    &&& all_placed(t@) == self@.place_all(cell.instances@)
                    &&& forall|i: int|
                        0 <= i < t@.len() ==> {
                            &&& *(#[trigger] t@[i]).inst == cell.instances@[i]
                            &&& defines(self.lib, cell.instances@[i].cell, t@[i].def)
                        }
                },
            },
    {
        let mut instances: Vec<TempInstance<'a>> = Vec::new();
        let mut i: usize = 0;
        while i < cell.instances.len()
            invariant
                i <= cell.instances@.len(),
                instances@.len() == i,
                self@.arrange_ready(*cell),
                forall|j: int| 0 <= j < i ==> !((#[trigger] cell.instances@[j]).cell is Name),
                forall|j: int|
                    0 <= j < i ==> {
                        &&& *(#[trigger] instances@[j]).inst == cell.instances@[j]
                        &&& defines(self.lib, cell.instances@[j].cell, instances@[j].def)
                    },
                forall|j: int|
                    0 <= j < i ==> (#[trigger] instances@[j]).placed() == self@.place(
                        cell.instances@[j],
                    ),
            decreases cell.instances@.len() - i,
        {
            assert(self@.resolves(cell.instances@[i as int].cell));
            let inst = &cell.instances[i];
            match &inst.cell {
                CellRef::Cell(c) => {
                    let def = CellDef::Cell(&self.lib.cells[c.index]);
                    instances.push(TempInstance { inst, def });
                },
                CellRef::Abstract(c) => {
                    let def = CellDef::Abstract(&self.lib.abstracts[c.index]);
                    instances.push(TempInstance { inst, def });
                },
                CellRef::Name(_) => {
                    return Err(LayoutError::msg("FIXME?"));
                },
            }
            i += 1;
        }
        assert(all_placed(instances@) =~= self@.place_all(cell.instances@));
        Ok(instances)
    }

    /// Arrange the cuts of `cell` by layer
    fn temp_cuts(&self, cell: &Cell) -> (r: LayoutResult<Vec<Vec<ValidTrackLoc>>>)
        requires
            self@.arrange_ready(*cell),
            self@.instances_error(*cell) is None,
        ensures
            match first_error(cell.cuts@) {
                Some(error) => r matches Err(e) && e@ == error,
                None => r matches Ok(cuts) && {
                    &&& cuts@.len() == cell.top_layer
                    &&& forall|l: int|
                        0 <= l < cell.top_layer ==> (#[trigger] cuts@[l])@ == accepted(
                            cell.cuts@,
                        ).filter(on_layer(l))
                },
            },
    {
        let mut cuts: Vec<Vec<ValidTrackLoc>> = empty_vecs(cell.top_layer());
        let ghost all = accepted(cell.cuts@);
        proof {
            assert(cell.cuts@.take(0).len() == 0);
            assert forall|l: int| 0 <= l < cell.top_layer implies (#[trigger] cuts@[l])@
                == all.take(0).filter(on_layer(l)) by {
                filter_none(all, on_layer(l));
            }
        }
        let mut i: usize = 0;
        while i < cell.cuts.len()
            invariant
                i <= cell.cuts@.len(),
                self@.arrange_ready(*cell),
                self@.instances_error(*cell) is None,
                first_error(cell.cuts@.take(i as int)) is None,
                all == accepted(cell.cuts@),
                cuts@.len() == cell.top_layer,
                forall|l: int|
                    0 <= l < cell.top_layer ==> (#[trigger] cuts@[l])@ == all.take(i as int).filter(
                        on_layer(l),
                    ),
            decreases cell.cuts@.len() - i,
        {
            proof {
                first_error_step(cell.cuts@, i as int);
            }
            match &cell.cuts[i] {
                Ok(c) => {
                    assert(c.layer < cell.top_layer);
                    let ghost before = cuts@;
                    cuts[c.layer].push(*c);
                    assert forall|l: int| 0 <= l < cell.top_layer implies (#[trigger] cuts@[l])@
                        == all.take(i + 1).filter(on_layer(l)) by {
                        filter_step(all, on_layer(l), i as int);
                        assert(before[l]@ == all.take(i as int).filter(on_layer(l)));
                    }
                },
                Err(e) => {
                    proof {
                        first_error_decides(cell.cuts@, i + 1);
                    }
                    return Err(e.clone());
                },
            }
            i += 1;
        }
        assert(cell.cuts@.take(i as int) =~= cell.cuts@);
        assert(all.take(i as int) =~= all);
        Ok(cuts)
    }

    /// Store the assignments of `cell`, and arrange their keys by upper and by lower layer
    fn temp_assignments(&self, cell: &Cell) -> (r: LayoutResult<
        (AssignMap, Vec<Vec<AssignKey>>, Vec<Vec<AssignKey>>),
    >)
        requires
            self@.arrange_ready(*cell),
            self@.instances_error(*cell) is None,
            first_error(cell.cuts@) is None,
        ensures
            match first_error(cell.assignments@) {
                Some(error) => r matches Err(e) && e@ == error,
                None => r matches Ok((assignments, tops, bots)) && {
                    &&& stored_by_layer(
                        assign_contents(assignments),
                        accepted(cell.assignments@),
                        tops@,
                        bots@,
                    )
                    &&& assign_contents(assignments).len() == cell.assignments@.len()
                    &&& tops@.len() == cell.top_layer
                    &&& bots@.len() == cell.top_layer
                    &&& forall|l: int|
                        0 <= l < cell.top_layer ==> lookup(
                            assign_contents(assignments),
                            (#[trigger] tops@[l])@,
                        ) == present(accepted(cell.assignments@).filter(top_on_layer(l)))
                    &&& forall|l: int|
                        0 <= l < cell.top_layer ==> lookup(
                            assign_contents(assignments),
                            (#[trigger] bots@[l])@,
                        ) == present(accepted(cell.assignments@).filter(bot_on_layer(l)))
                },
            },
    {
        let mut bots: Vec<Vec<AssignKey>> = empty_vecs(cell.top_layer());
        let mut tops: Vec<Vec<AssignKey>> = empty_vecs(cell.top_layer());
        let mut assignments = AssignMap::with_key();
        let ghost all = accepted(cell.assignments@);
        let ghost mut keys = Seq::<AssignKey>::empty();
        proof {
            assert(keys.take(0) =~= keys);
            assert forall|l: int| 0 <= l < tops@.len() implies (#[trigger] tops@[l])@
                == keys.filter(top_key_on_layer(assign_contents(assignments), l)) by {
                filter_none(keys, top_key_on_layer(assign_contents(assignments), l));
            }
            assert forall|l: int| 0 <= l < bots@.len() implies (#[trigger] bots@[l])@
                == keys.filter(bot_key_on_layer(assign_contents(assignments), l)) by {
                filter_none(keys, bot_key_on_layer(assign_contents(assignments), l));
            }
            assert(cell.assignments@.take(0).len() == 0);
            assert forall|l: int| 0 <= l < cell.top_layer implies lookup(
                assign_contents(assignments),
                (#[trigger] tops@[l])@,
            ) == present(all.take(0).filter(top_on_layer(l))) by {
                filter_none(all, top_on_layer(l));
            }
            assert forall|l: int| 0 <= l < cell.top_layer implies lookup(
                assign_contents(assignments),
                (#[trigger] bots@[l])@,
            ) == present(all.take(0).filter(bot_on_layer(l))) by {
                filter_none(all, bot_on_layer(l));
            }
        }
        let mut i: usize = 0;
        while i < cell.assignments.len()
            invariant
                i <= cell.assignments@.len(),
                self@.arrange_ready(*cell),
                self@.instances_error(*cell) is None,
                first_error(cell.cuts@) is None,
                first_error(cell.assignments@.take(i as int)) is None,
                all == accepted(cell.assignments@),
                assign_contents(assignments).dom().finite(),
                assign_contents(assignments).len() == i,
                stores(assign_contents(assignments), keys, all.take(i as int)),
                arranged(assign_contents(assignments), keys, tops@, bots@),
                tops@.len() == cell.top_layer,
                bots@.len() == cell.top_layer,
                forall|l: int|
                    0 <= l < cell.top_layer ==> lookup(
                        assign_contents(assignments),
                        (#[trigger] tops@[l])@,
                    ) == present(all.take(i as int).filter(top_on_layer(l))),
                forall|l: int|
                    0 <= l < cell.top_layer ==> lookup(
                        assign_contents(assignments),
                        (#[trigger] bots@[l])@,
                    ) == present(all.take(i as int).filter(bot_on_layer(l))),
            decreases cell.assignments@.len() - i,
        {
            proof {
                first_error_step(cell.assignments@, i as int);
            }
            match &cell.assignments[i] {
                Ok(v) => {
                    let bot = v.bot.layer;
                    let top = v.top.layer;
                    assert(bot < cell.top_layer && top < cell.top_layer);
                    let ghost contents = assign_contents(assignments);
                    let ghost bots_before = bots@;
                    let ghost tops_before = tops@;
                    let k = assignments.insert(v.clone());
                    bots[bot].push(k);
                    tops[top].push(k);
                    proof {
                        let after = assign_contents(assignments);
                        let longer = keys.push(k);
                        insert_stores(contents, keys, all.take(i as int), k, *v);
                        assert(all.take(i + 1) =~= all.take(i as int).push(*v));
                        assert forall|l: int| 0 <= l < tops@.len() implies (#[trigger] tops@[l])@
                            == longer.filter(top_key_on_layer(after, l)) by {
                            insert_arranges(contents, keys, k, *v, l);
                            assert(tops_before[l]@ == keys.filter(top_key_on_layer(contents, l)));
                        }
                        assert forall|l: int| 0 <= l < bots@.len() implies (#[trigger] bots@[l])@
                            == longer.filter(bot_key_on_layer(after, l)) by {
                            insert_arranges(contents, keys, k, *v, l);
                            assert(bots_before[l]@ == keys.filter(bot_key_on_layer(contents, l)));
                        }
                        keys = longer;
                    }
                    assert forall|l: int| 0 <= l < cell.top_layer implies lookup(
                        assign_contents(assignments),
                        (#[trigger] tops@[l])@,
                    ) == present(all.take(i + 1).filter(top_on_layer(l))) by {
                        filter_step(all, top_on_layer(l), i as int);
                        let kept = all.take(i as int).filter(top_on_layer(l));
                        assert(lookup(contents, tops_before[l]@) == present(kept));
                        insert_keeps_lookup(contents, tops_before[l]@, k, *v);
                        assert(present(kept.push(*v)) =~= present(kept).push(Some(*v)));
                    }
                    assert forall|l: int| 0 <= l < cell.top_layer implies lookup(
                        assign_contents(assignments),
                        (#[trigger] bots@[l])@,
                    ) == present(all.take(i + 1).filter(bot_on_layer(l))) by {
                        filter_step(all, bot_on_layer(l), i as int);
                        let kept = all.take(i as int).filter(bot_on_layer(l));
                        assert(lookup(contents, bots_before[l]@) == present(kept));
                        insert_keeps_lookup(contents, bots_before[l]@, k, *v);
                        assert(present(kept.push(*v)) =~= present(kept).push(Some(*v)));
                    }
                },
                Err(e) => {
                    proof {
                        first_error_decides(cell.assignments@, i + 1);
                    }
                    return Err(e.clone());
                },
            }
            i += 1;
        }
        assert(cell.assignments@.take(i as int) =~= cell.assignments@);
        assert(all.take(i as int) =~= all);
        Ok((assignments, tops, bots))
    }

    /// Create a [`TempCell`], organizing [`Cell`] data in more-convenient fashion for conversion
    pub fn temp_cell<'a>(&'a self, cell: &'a Cell) -> (r: LayoutResult<TempCell<'a>>)
        requires
            self@.arrange_ready(*cell),
        ensures
            match self@.arrange_error(*cell) {
                Some(error) => r matches Err(e) && e@ == error,
                None => r matches Ok(t) && {
                    &&& *t.cell == *cell
                    &&& *t.lib == self.lib
                    &&& t.instances@.len() == cell.instances@.len()
                    &&& forall|i: int|
                        0 <= i < t.instances@.len() ==> {
                            &&& *(#[trigger] t.instances@[i]).inst == cell.instances@[i]
                            &&& defines(self.lib, cell.instances@[i].cell, t.instances@[i].def)
                        }
                    &&& assign_contents(t.assignments).len() == cell.assignments@.len()
                    &&& stored_by_layer(
                        assign_contents(t.assignments),
                        accepted(cell.assignments@),
                        t.top_assns@,
                        t.bot_assns@,
                    )
                    &&& t.cuts@.len() == cell.top_layer
                    &&& t.top_assns@.len() == cell.top_layer
                    &&& t.bot_assns@.len() == cell.top_layer
                    &&& forall|layer: ValidMetalLayer|
                        layer.index < cell.top_layer ==> #[trigger] t.input(layer)
                            == self@.cell_input(*cell, layer)
                },
            },
    {
        let instances = match self.temp_instances(cell) {
            Ok(instances) => instances,
            Err(e) => {
                return Err(e);
            },
        };
        let cuts = match self.temp_cuts(cell) {
            Ok(cuts) => cuts,
            Err(e) => {
                return Err(e);
            },
        };
        let (assignments, top_assns, bot_assns) = match self.temp_assignments(cell) {
            Ok(arranged) => arranged,
            Err(e) => {
                return Err(e);
            },
        };
        // And create our (temporary) cell data!
        Ok(TempCell { cell, lib: &self.lib, instances, cuts, assignments, top_assns, bot_assns })
    }

    /// Cut the blockages and cuts of a period out of its tracks
    fn carve_period(&self, temp_period: &TempPeriod, layer_period: LayerPeriod) -> (r: LayoutResult<
        LayerPeriod,
    >)
        requires
            temp_period.prepared(self@),
            layer_period.deep_view() == temp_period.blank(),
        ensures
            outcome(r) == apply_all(
                temp_period.blank(),
                self@.carving(*temp_period.layer.layer, temp_period.input()),
            ),
            r matches Ok(p) ==> p.signals@.len() == temp_period.layer.layer.period.signals@.len(),
    {
        let layer = temp_period.layer.layer;
        let ghost blank = temp_period.blank();
        let ghost input = temp_period.input();
        let ghost edits = self@.edits(*layer, input);
        let ghost carving = self@.carving(*layer, input);
        let nsig = layer_period.signals.len();
        let mut layer_period = layer_period;
        proof {
            assert(edits.take(0).len() == 0);
            assert(edits.take(carving.len() as int) =~= carving);
            assert(blank.signals.len() == layer_period.signals@.len());
        }
        // Insert blockages on each track
        let mut i: usize = 0;
        while i < temp_period.blockages.len()
            invariant
                i <= temp_period.blockages@.len(),
                temp_period.prepared(self@),
                *layer == *temp_period.layer.layer,
                blank == temp_period.blank(),
                input == temp_period.input(),
                edits == self@.edits(*layer, input),
                carving == self@.carving(*layer, input),
                edits.take(carving.len() as int) == carving,
                nsig == layer.period.signals@.len(),
                layer_period.signals@.len() == nsig,
                apply_all(blank, edits.take(i as int)) == Ok::<LayerPeriodView, ErrorView>(
                    layer_period.deep_view(),
                ),
            decreases temp_period.blockages@.len() - i,
        {
            let ghost before = layer_period.deep_view();
            let (n1, n2) = temp_period.blockages[i];
            assert(edits[i as int] == self@.block_edit((n1, n2)));
            assert(reached(blank, edits, i as int));
            proof {
                apply_all_step(blank, edits, i as int);
            }
            // Convert primitive-pitch-based blockages to db units
            let start = self.convert_to_db_units(n1);
            let stop = self.convert_to_db_units(n2);
            match layer_period.cut(start, stop) {
                Ok(p) => {
                    proof {
                        apply_keeps_tracks(before, edits[i as int]);
                        assert(p.deep_view().signals.len() == p.signals@.len());
                    }
                    layer_period = p;
                },
                Err(e) => {
                    proof {
                        assert(carving.take(i + 1) =~= edits.take(i + 1));
                        apply_all_fails_early(blank, carving, i + 1);
                    }
                    return Err(e);
                },
            }
            i += 1;
        }
        // Place all relevant cuts
        let ghost nblock = temp_period.blockages@.len() as int;
        let mut j: usize = 0;
        while j < temp_period.cuts.len()
            invariant
                j <= temp_period.cuts@.len(),
                temp_period.prepared(self@),
                *layer == *temp_period.layer.layer,
                blank == temp_period.blank(),
                input == temp_period.input(),
                edits == self@.edits(*layer, input),
                carving == self@.carving(*layer, input),
                edits.take(carving.len() as int) == carving,
                nsig == layer.period.signals@.len(),
                nblock == temp_period.blockages@.len(),
                layer_period.signals@.len() == nsig,
                apply_all(blank, edits.take(nblock + j)) == Ok::<LayerPeriodView, ErrorView>(
                    layer_period.deep_view(),
                ),
            decreases temp_period.cuts@.len() - j,
        {
            let ghost before = layer_period.deep_view();
            let ghost k = nblock + j;
            let cut = temp_period.cuts[j];
            assert(edits[k] == self@.cut_edit(*layer, cut));
            assert(reached(blank, edits, k));
            proof {
                apply_all_step(blank, edits, k);
            }
            // Cut the assigned track
            let halfcut = layer.spec.cutsize.0 / 2;
            let start = DbUnits(cut.dist.0 - halfcut);
            let stop = DbUnits(cut.dist.0 + halfcut);
            assert(edit_in_range(edits[k], nsig as int));
            let signal = cut.track % nsig;
            assert(before.signals[signal as int] == layer_period.signals@[signal as int].deep_view());
            match layer_period.signals[signal].cut(start, stop) {
                Ok(()) => {
                    assert(layer_period.deep_view().signals =~= apply(
                        before,
                        edits[k],
                    )->Ok_0.signals);
                },
                Err(e) => {
                    proof {
                        assert(carving.take(k + 1) =~= edits.take(k + 1));
                        apply_all_fails_early(blank, carving, k + 1);
                    }
                    return Err(e);
                },
            }
            j += 1;
        }
        Ok(layer_period)
    }

    /// Put the wires of a period on the nets that are assigned to them from below.
    /// These are also where vias are added.
    fn land_bots(
        &self,
        temp_period: &TempPeriod,
        layer_period: LayerPeriod,
        elems: &mut Vec<raw::Element>,
    ) -> (r: LayoutResult<LayerPeriod>)
        requires
            temp_period.prepared(self@),
            layer_period.signals@.len() == temp_period.layer.layer.period.signals@.len(),
            old(elems).deep_view().len() == 0,
            apply_all(
                temp_period.blank(),
                self@.carving(*temp_period.layer.layer, temp_period.input()),
            ) == Ok::<LayerPeriodView, ErrorView>(layer_period.deep_view()),
        ensures
            outcome(r) == apply_all(
                temp_period.blank(),
                self@.landing(*temp_period.layer.layer, temp_period.input()),
            ),
            r matches Ok(p) ==> {
                &&& p.signals@.len() == temp_period.layer.layer.period.signals@.len()
                &&& final(elems).deep_view() == self@.via_elements(
                    temp_period.layer.layer.index as int,
                    temp_period.input().bots,
                )
            },
    {
        let layer = temp_period.layer.layer;
        let ghost index = layer.index as int;
        let ghost blank = temp_period.blank();
        let ghost input = temp_period.input();
        let ghost edits = self@.edits(*layer, input);
        let ghost landing = self@.landing(*layer, input);
        let ghost ncarve = self@.carving(*layer, input).len() as int;
        let ghost vias = self@.via_elements(index, input.bots);
        let nsig = layer_period.signals.len();
        let mut layer_period = layer_period;
        proof {
            assert(edits.take(ncarve) =~= self@.carving(*layer, input));
            assert(edits.take(landing.len() as int) =~= landing);
            assert(reached(blank, edits, ncarve));
            assert(elems.deep_view() =~= vias.take(0));
        }
        let via_layer = &self.stack.vias[layer.index];
        let mut i: usize = 0;
        while i < temp_period.bot_assns.len()
            invariant
                i <= temp_period.bot_assns@.len(),
                temp_period.prepared(self@),
                *layer == *temp_period.layer.layer,
                index == layer.index,
                blank == temp_period.blank(),
                input == temp_period.input(),
                edits == self@.edits(*layer, input),
                landing == self@.landing(*layer, input),
                edits.take(landing.len() as int) == landing,
                ncarve == self@.carving(*layer, input).len(),
                vias == self@.via_elements(index, input.bots),
                *via_layer == self.stack.vias@[index],
                nsig == layer.period.signals@.len(),
                layer_period.signals@.len() == nsig,
                apply_all(blank, edits.take(ncarve + i)) == Ok::<LayerPeriodView, ErrorView>(
                    layer_period.deep_view(),
                ),
                elems.deep_view() == vias.take(i as int),
            decreases temp_period.bot_assns@.len() - i,
        {
            let ghost before = layer_period.deep_view();
            let ghost k = ncarve + i;
            assert(edits[k] == self@.bot_edit(*layer, input.bots[i as int]));
            assert(reached(blank, edits, k));
            proof {
                apply_all_step(blank, edits, k);
                assert(landing.take(k + 1) =~= edits.take(k + 1));
                if apply_all(blank, edits.take(k + 1)) is Err {
                    apply_all_fails_early(blank, landing, k + 1);
                }
            }
            let assn = match temp_period.cell.assignments.get(temp_period.bot_assns[i]) {
                Some(assn) => assn,
                None => {
                    return Err(LayoutError::msg("Internal error: invalid assignment"));
                },
            };
            // Find the segment corresponding to the off-axis coordinate on the assigned track,
            // and assign it to the net
            assert(edit_in_range(edits[k], nsig as int));
            let signal = assn.bot.track % nsig;
            assert(before.signals[signal as int] == layer_period.signals@[signal as int].deep_view());
            if !layer_period.signals[signal].assign(assn.bot.dist, &assn.net) {
                return Err(LayoutError::msg("COULDNT FIND SEGMENT"));
            }
            if via_layer.raw.is_none() {
                return Err(LayoutError::msg("Raw-Layout Layer Not Defined"));
            }
            assert(layer_period.deep_view().signals =~= apply(before, edits[k])->Ok_0.signals);
            assert(reached(blank, edits, k + 1));
            assert(draws_via(edits[k]));
            // Draw the via as if we ran horizontally, whichever way we run
            let dx = via_layer.size.x.0 / 2;
            let dy = via_layer.size.y.0 / 2;
            let elem = raw::Element {
                net: None,
                layer: self.layerkeys[layer.index],
                purpose: raw::LayerPurpose::Drawing,
                inner: raw::Shape::Rect {
                    p0: self.convert_point(
                        DbUnits(assn.bot.dist.0 - dx),
                        DbUnits(assn.top.dist.0 - dy),
                    ),
                    p1: self.convert_point(
                        DbUnits(assn.bot.dist.0 + dx),
                        DbUnits(assn.top.dist.0 + dy),
                    ),
                },
            };
            assert(elem.deep_view() == vias[i as int]);
            push(elems, elem);
            assert(elems.deep_view() =~= vias.take(i + 1));
            i += 1;
        }
        assert(vias.take(i as int) =~= vias);
        Ok(layer_period)
    }

    /// Put the wires of a period on the nets that are assigned to them from above
    fn land_tops(&self, temp_period: &TempPeriod, layer_period: LayerPeriod) -> (r: LayoutResult<
        LayerPeriod,
    >)
        requires
            temp_period.prepared(self@),
            layer_period.signals@.len() == temp_period.layer.layer.period.signals@.len(),
            apply_all(
                temp_period.blank(),
                self@.landing(*temp_period.layer.layer, temp_period.input()),
            ) == Ok::<LayerPeriodView, ErrorView>(layer_period.deep_view()),
        ensures
            outcome(r) == apply_all(
                temp_period.blank(),
                self@.edits(*temp_period.layer.layer, temp_period.input()),
            ),
    {
        let layer = temp_period.layer.layer;
        let ghost blank = temp_period.blank();
        let ghost input = temp_period.input();
        let ghost edits = self@.edits(*layer, input);
        let ghost nland = self@.landing(*layer, input).len() as int;
        let nsig = layer_period.signals.len();
        let mut layer_period = layer_period;
        assert(edits.take(nland) =~= self@.landing(*layer, input));
        let mut i: usize = 0;
        while i < temp_period.top_assns.len()
            invariant
                i <= temp_period.top_assns@.len(),
                temp_period.prepared(self@),
                *layer == *temp_period.layer.layer,
                blank == temp_period.blank(),
                input == temp_period.input(),
                edits == self@.edits(*layer, input),
                nland == self@.landing(*layer, input).len(),
                nsig == layer.period.signals@.len(),
                layer_period.signals@.len() == nsig,
                apply_all(blank, edits.take(nland + i)) == Ok::<LayerPeriodView, ErrorView>(
                    layer_period.deep_view(),
                ),
            decreases temp_period.top_assns@.len() - i,
        {
            let ghost before = layer_period.deep_view();
            let ghost k = nland + i;
            assert(edits[k] == self@.top_edit(*layer, input.tops[i as int]));
            assert(reached(blank, edits, k));
            proof {
                apply_all_step(blank, edits, k);
                if apply_all(blank, edits.take(k + 1)) is Err {
                    apply_all_fails_early(blank, edits, k + 1);
                }
            }
            let assn = match temp_period.cell.assignments.get(temp_period.top_assns[i]) {
                Some(assn) => assn,
                None => {
                    return Err(LayoutError::msg("Internal error: invalid assignment"));
                },
            };
            assert(edit_in_range(edits[k], nsig as int));
            let signal = assn.top.track % nsig;
            assert(before.signals[signal as int] == layer_period.signals@[signal as int].deep_view());
            if !layer_period.signals[signal].assign(assn.top.dist, &assn.net) {
                return Err(LayoutError::msg("Internal error: invalid segment"));
            }
            assert(layer_period.deep_view().signals =~= apply(before, edits[k])->Ok_0.signals);
            i += 1;
        }
        assert(edits.take(nland + i) =~= edits);
        Ok(layer_period)
    }

    /// Convert the wires of `tracks`, track by track
    fn convert_tracks(&self, tracks: &Vec<Track>, layer: &ValidMetalLayer) -> (r: LayoutResult<
        Vec<raw::Element>,
    >)
        requires
            forall|k: int|
                0 <= k < tracks@.len() ==> self@.wires_ready(
                    layer.index as int,
                    #[trigger] tracks.deep_view()[k],
                ),
        ensures
            outcome(r) == Ok::<Seq<raw::ElementView>, ErrorView>(
                self@.tracks_elements(layer.index as int, tracks.deep_view()),
            ),
    {
        let ghost index = layer.index as int;
        let ghost all = tracks.deep_view();
        let mut elems: Vec<raw::Element> = Vec::new();
        assert(all.take(0).len() == 0);
        assert(elems.deep_view() =~= self@.tracks_elements(index, all.take(0)));
        let mut i: usize = 0;
        while i < tracks.len()
            invariant
                i <= tracks@.len(),
                index == layer.index,
                all == tracks.deep_view(),
                forall|k: int|
                    0 <= k < tracks@.len() ==> self@.wires_ready(index, #[trigger] all[k]),
                elems.deep_view() == self@.tracks_elements(index, all.take(i as int)),
            decreases tracks@.len() - i,
        {
            assert(all[i as int] == tracks@[i as int].deep_view());
            match self.convert_track(&tracks[i], layer) {
                Ok(more) => extend(&mut elems, more),
                Err(e) => {
                    return Err(e);
                },
            }
            assert(all.take(i + 1).drop_last() =~= all.take(i as int));
            i += 1;
        }
        assert(all.take(i as int) =~= all);
        Ok(elems)
    }

    /// Convert a single row/col (period) on a single layer in a single Cell.
    pub fn convert_cell_layer_period(&self, temp_period: &TempPeriod) -> (r: LayoutResult<
        Vec<raw::Element>,
    >)
        requires
            temp_period.prepared(self@),
        ensures
            outcome(r) == temp_period.outcome(self@),
    {
        let layer = temp_period.layer.layer;
        let ghost blank = temp_period.blank();
        let ghost input = temp_period.input();
        let ghost edits = self@.edits(*layer, input);
        let mut elems: Vec<raw::Element> = Vec::new();
        proof {
            let ncarve = self@.carving(*layer, input).len() as int;
            let nland = self@.landing(*layer, input).len() as int;
            assert(edits.take(ncarve) =~= self@.carving(*layer, input));
            assert(edits.take(nland) =~= self@.landing(*layer, input));
            if apply_all(blank, self@.carving(*layer, input)) is Err {
                apply_all_fails_early(blank, edits, ncarve);
            }
            if apply_all(blank, self@.landing(*layer, input)) is Err {
                apply_all_fails_early(blank, edits, nland);
            }
        }
        // Create the layer-period object we'll manipulate most of the way
        let layer_period = layer.to_layer_period(temp_period.periodnum, temp_period.layer.span);
        // Insert blockages and cuts
        let layer_period = match self.carve_period(temp_period, layer_period) {
            Ok(p) => p,
            Err(e) => {
                return Err(e);
            },
        };
        // Handle Net Assignments
        // Start with those for which we're the lower of the two layers.
        let layer_period = match self.land_bots(temp_period, layer_period, &mut elems) {
            Ok(p) => p,
            Err(e) => {
                return Err(e);
            },
        };
        // Assign all the segments for which we're the top layer
        let layer_period = match self.land_tops(temp_period, layer_period) {
            Ok(p) => p,
            Err(e) => {
                return Err(e);
            },
        };
        // Convert all TrackSegments to raw Elements
        match self.convert_tracks(&layer_period.rails, layer) {
            Ok(more) => extend(&mut elems, more),
            Err(e) => {
                return Err(e);
            },
        }
        match self.convert_tracks(&layer_period.signals, layer) {
            Ok(more) => extend(&mut elems, more),
            Err(e) => {
                return Err(e);
            },
        }
        Ok(elems)
    }

    /// Convert an [`Abstract`]: its outline, then the shape of each of its ports.
    pub fn convert_abstract(&self, abs: &Abstract) -> (r: LayoutResult<raw::Cell>)
        requires
            self@.abstract_ready(*abs),
        ensures
            outcome(r) == Ok::<raw::CellView, ErrorView>(self@.abstract_cell(*abs)),
    {
        let mut elems: Vec<raw::Element> = Vec::new();
        // Create our [Outline]s boundary
        match self.convert_outline(abs) {
            Ok(elem) => push(&mut elems, elem),
            Err(e) => {
                return Err(e);
            },
        }
        let ghost expected = self@.abstract_cell(*abs);
        let mut i: usize = 0;
        // Create shapes for each pin
        while i < abs.ports.len()
            invariant
                i <= abs.ports@.len(),
                self@.abstract_ready(*abs),
                expected == self@.abstract_cell(*abs),
                elems.deep_view() == expected.elems.take(i + 1),
            decreases abs.ports@.len() - i,
        {
            assert(self@.port_ready(*abs, abs.ports@[i as int]));
            let port = &abs.ports[i];
            let (layer_index, track, side) = match &port.kind {
                PortKind::Edge { layer, track, side } => (*layer, *track, *side),
                // Ports off the edges are not drawn
                PortKind::Zlocs { .. } => unreached(),
                PortKind::Zfull { .. } => unreached(),
            };
            let layer = &self.stack.metals[layer_index].spec;
            // First get the "infinite dimension" coordinate from the edge
            let infdims: (DbUnits, DbUnits) = match side {
                Side::BottomOrLeft => (DbUnits(0), DbUnits(100)),
                Side::TopOrRight => {
                    let outside = self.convert_to_db_units(abs.outline().max(layer.dir));
                    (DbUnits(outside.0 - 100), outside)
                },
            };
            // Now get the "periodic dimension" from our layer-center
            let perdims: (DbUnits, DbUnits) = match self.track_span(layer_index, track) {
                Ok(span) => span,
                Err(e) => {
                    return Err(e);
                },
            };
            // Presuming we're horizontal, points are here:
            let mut p0 = Xy::new(infdims.0, perdims.0);
            let mut p1 = Xy::new(infdims.1, perdims.1);
            // And if vertical, just transpose them
            if layer.dir == Dir::Vert {
                p0 = p0.transpose();
                p1 = p1.transpose();
            }
            let elem = raw::Element {
                net: Some(port.name.clone()),
                layer: self.layerkeys[layer_index],
                purpose: raw::LayerPurpose::Drawing,
                inner: raw::Shape::Rect { p0: self.convert_xy(&p0), p1: self.convert_xy(&p1) },
            };
            assert(elem.deep_view() =~= expected.elems[i + 1]);
            push(&mut elems, elem);
            assert(elems.deep_view() =~= expected.elems.take(i + 2));
            i += 1;
        }
        assert(elems.deep_view() =~= expected.elems);
        // And return a new cell
        let cell = raw::Cell { name: abs.name.clone(), insts: Vec::new(), elems };
        assert(cell.deep_view() =~= expected);
        Ok(cell)
    }

    /// Get the positions spanning track number `track_index` on layer number `layer_index`
    pub fn track_span(&self, layer_index: usize, track_index: usize) -> (r: LayoutResult<
        (DbUnits, DbUnits),
    >)
        requires
            self@.track_ready(layer_index as int, track_index as int),
        ensures
            r matches Ok(span) && {
                let layer = self.stack.metals@[layer_index as int];
                &&& span.0.0 == layer.signal_start(track_index as int)
                &&& span.1.0 == layer.signal_stop(track_index as int)
            },
    {
        Ok(self.stack.metals[layer_index].span(track_index))
    }

    /// Convert an [`Outline`] to a [`raw::Element`] polygon
    pub fn convert_outline<T: HasOutline>(&self, cell: &T) -> (r: LayoutResult<raw::Element>)
        requires
            self@.outline_ready(cell.outline_spec()),
        ensures
            outcome(r) == Ok::<raw::ElementView, ErrorView>(
                self@.outline_element(cell.outline_spec()),
            ),
    {
        let outline: &Outline = cell.outline();
        let ghost corners = self@.corners(*outline);
        // Create an array of Outline-Points
        let mut pts: Vec<Point> = Vec::new();
        push(&mut pts, Point { x: 0, y: 0 });
        let mut yp: isize = 0;
        assert(pts.deep_view() =~= corners.take(1));
        let mut i: usize = 0;
        while i < outline.x.len()
            invariant
                i <= outline.x@.len(),
                self@.outline_ready(*outline),
                corners == self@.corners(*outline),
                pts.deep_view() == corners.take(2 * i + 1),
                yp == corners[2 * i + 1].1,
            decreases outline.x@.len() - i,
        {
            assert(self@.prim_ready(outline.x@[i as int]));
            assert(self@.prim_ready(outline.y@[i as int]));
            let xp = self.convert_to_db_units(outline.x[i]).0;
            push(&mut pts, Point::new(xp, yp));
            assert(pts.deep_view() =~= corners.take(2 * i + 2));
            yp = self.convert_to_db_units(outline.y[i]).0;
            push(&mut pts, Point::new(xp, yp));
            assert(pts.deep_view() =~= corners.take(2 * i + 3));
            i += 1;
        }
        // Add the final implied Point at (x, y[-1])
        push(&mut pts, Point::new(0, yp));
        assert(pts.deep_view() =~= corners);
        // Create the [raw::Element]
        Ok(
            raw::Element {
                net: None,
                layer: self.boundary_layer,
                purpose: raw::LayerPurpose::Outline,
                inner: raw::Shape::Poly { pts },
            },
        )
    }

    /// Convert a [`Track`]-full of wire segments to a vector of [`raw::Element`] rectangles
    pub fn convert_track(&self, track: &Track, layer: &ValidMetalLayer) -> (r: LayoutResult<
        Vec<raw::Element>,
    >)
        requires
            self@.wires_ready(layer.index as int, track.deep_view()),
        ensures
            outcome(r) == Ok::<Seq<raw::ElementView>, ErrorView>(
                self@.track_elements(layer.index as int, track.deep_view()),
            ),
    {
        let ghost index = layer.index as int;
        let ghost expected = self@.track_elements(index, track.deep_view());
        let mut elems: Vec<raw::Element> = Vec::new();
        let mut i: usize = 0;
        assert(elems.deep_view() =~= expected.take(0));
        while i < track.segments.len()
            invariant
                i <= track.segments@.len(),
                index == layer.index,
                self@.wires_ready(index, track.deep_view()),
                expected == self@.track_elements(index, track.deep_view()),
                elems.deep_view() == expected.take(i as int),
            decreases track.segments@.len() - i,
        {
            assert(track.deep_view().segments[i as int] == track.segments@[i as int].deep_view());
            let seg = &track.segments[i];
            let far = DbUnits(track.start.0 + track.width.0);
            let (p0, p1) = match track.dir {
                Dir::Horiz => (
                    self.convert_point(seg.start, track.start),
                    self.convert_point(seg.stop, far),
                ),
                Dir::Vert => (
                    self.convert_point(track.start, seg.start),
                    self.convert_point(far, seg.stop),
                ),
            };
            let elem = raw::Element {
                net: raw::clone_name(&seg.net),
                layer: self.layerkeys[layer.index],
                purpose: raw::LayerPurpose::Drawing,
                inner: raw::Shape::Rect { p0, p1 },
            };
            push(&mut elems, elem);
            assert(elems.deep_view() =~= expected.take(i + 1));
            i += 1;
        }
        assert(elems.deep_view() =~= expected);
        Ok(elems)
    }

    /// Create a [`TempCellLayer`] for the intersection of `temp_cell` and `layer`
    pub fn temp_cell_layer<'a>(
        &self,
        temp_cell: &'a TempCell<'a>,
        layer: &'a ValidMetalLayer,
    ) -> (t: TempCellLayer<'a>)
        requires
            self@.layer_ready(*layer, temp_cell.cell.outline),
        ensures
            *t.layer == *layer,
            *t.cell == *temp_cell,
            t.instances@ == temp_cell.instances@.filter(reaching(layer.index as int)),
            t.input() == temp_cell.input(*layer),
            t.pitch == layer.pitch,
            t.nperiods == self@.nperiods(*layer, temp_cell.cell.outline),
            t.span.0 == self@.layer_span(*layer, temp_cell.cell.outline),
    {
        // Sort out which of the cell's [Instance]s come up to this layer
        let ghost index = layer.index as int;
        let ghost placed = all_placed(temp_cell.instances@);
        let mut instances: Vec<TempInstance<'a>> = Vec::new();
        proof {
            filter_none(temp_cell.instances@, reaching(index));
            filter_none(placed, up_to_layer(index));
            assert(all_placed(instances@) =~= placed.take(0).filter(up_to_layer(index)));
        }
        let mut i: usize = 0;
        while i < temp_cell.instances.len()
            invariant
                i <= temp_cell.instances@.len(),
                index == layer.index,
                placed == all_placed(temp_cell.instances@),
                instances@ == temp_cell.instances@.take(i as int).filter(reaching(index)),
                all_placed(instances@) == placed.take(i as int).filter(up_to_layer(index)),
            decreases temp_cell.instances@.len() - i,
        {
            proof {
                filter_step(temp_cell.instances@, reaching(index), i as int);
                filter_step(placed, up_to_layer(index), i as int);
            }
            let inst = temp_cell.instances[i];
            if inst.def.top_layer() >= layer.index {
                let ghost before = instances@;
                instances.push(inst);
                assert(all_placed(instances@) =~= all_placed(before).push(inst.placed()));
            }
            i += 1;
        }
        assert(temp_cell.instances@.take(i as int) =~= temp_cell.instances@);
        assert(placed.take(i as int) =~= placed);

        // Sort out which direction we're working across
        let cell = temp_cell.cell;
        // Convert to database units
        let x = self.convert_to_db_units(cell.outline.x[0]);
        let y = self.convert_to_db_units(cell.outline.y[0]);
        let (span, breadth) = match layer.spec.dir {
            Dir::Horiz => (x, y),
            Dir::Vert => (y, x),
        };
        proof {
            let (a, b) = (breadth.0 as int, layer.pitch.0 as int);
            let q = a / b;
            assert(a == b * q) by (nonlinear_arith)
                requires
                    b != 0,
                    a % b == 0,
                    q == a / b,
            ;
            assert((-a) / b == -q) by (nonlinear_arith)
                requires
                    b != 0,
                    a == b * q,
            ;
        }
        let nperiods = (breadth.0 / layer.pitch.0) as usize;

        TempCellLayer { layer, cell: temp_cell, instances, nperiods, pitch: layer.pitch, span }
    }

    /// Create the [`TempPeriod`] at the intersection of `temp_layer` and `periodnum`
    pub fn temp_cell_layer_period<'a>(
        &self,
        temp_layer: &'a TempCellLayer<'a>,
        periodnum: usize,
    ) -> (t: TempPeriod<'a>)
        requires
            temp_layer.cell.has_layer(temp_layer.layer.index as int),
            self@.input_ready(temp_layer.input(), *temp_layer.layer, periodnum as int),
        ensures
            t.periodnum == periodnum,
            *t.cell == *temp_layer.cell,
            *t.layer == *temp_layer,
            t.input() == self@.period_input(
                temp_layer.input(),
                *temp_layer.layer,
                periodnum as int,
            ),
            t.top_assns@ == temp_layer.cell.top_assns@[temp_layer.layer.index as int]@.filter(
                temp_layer.cell.top_key_in_period(*temp_layer.layer, periodnum as int),
            ),
            t.bot_assns@ == temp_layer.cell.bot_assns@[temp_layer.layer.index as int]@.filter(
                temp_layer.cell.bot_key_in_period(*temp_layer.layer, periodnum as int),
            ),
    {
        let cell = temp_layer.cell;
        let layer = temp_layer.layer;
        let dir = layer.spec.dir;
        let ghost input = temp_layer.input();
        let ghost n = periodnum as int;

        // For each row, decide which instances intersect
        // Convert these into blockage-areas for the tracks
        let ghost keep = self@.overlapping(*layer, n);
        let mut blockages: Vec<(PrimPitches, PrimPitches)> = Vec::new();
        proof {
            filter_none(input.placed, keep);
            assert(blockages@ =~= blocked_regions(input.placed.take(0).filter(keep), dir));
        }
        let mut i: usize = 0;
        while i < temp_layer.instances.len()
            invariant
                i <= temp_layer.instances@.len(),
                n == periodnum,
                *layer == *temp_layer.layer,
                dir == layer.spec.dir,
                input == temp_layer.input(),
                keep == self@.overlapping(*layer, n),
                self@.input_ready(input, *layer, n),
                blockages@ == blocked_regions(input.placed.take(i as int).filter(keep), dir),
            decreases temp_layer.instances@.len() - i,
        {
            let inst = &temp_layer.instances[i];
            assert(input.placed[i as int] == inst.placed());
            assert(self@.blockage_ready(input.placed[i as int], *layer, n));
            proof {
                filter_step(input.placed, keep, i as int);
            }
            if self.instance_intersects(inst, layer, periodnum) {
                let from = inst.inst.loc.get(dir);
                let extent = inst.def.outline().max(dir);
                let to = PrimPitches { dir: from.dir, num: from.num + extent.num };
                blockages.push((from, to));
                let ghost kept = input.placed.take(i as int).filter(keep);
                assert(blocked_regions(kept.push(inst.placed()), dir) =~= blocked_regions(
                    kept,
                    dir,
                ).push((from, to)));
            }
            i += 1;
        }
        assert(input.placed.take(i as int) =~= input.placed);

        // Grab indices of the relevant tracks for this period
        let nsig = layer.period.signals.len();
        assert(periodnum * nsig <= (periodnum + 1) * nsig) by (nonlinear_arith);
        let first: usize = periodnum * nsig;
        let last: usize = (periodnum + 1) * nsig;

        // Filter cuts down to those in this period
        let layer_cuts = &cell.cuts[layer.index];
        let mut cuts: Vec<ValidTrackLoc> = Vec::new();
        proof {
            filter_none(input.cuts, cut_in_period(*layer, n));
        }
        i = 0;
        while i < layer_cuts.len()
            invariant
                i <= layer_cuts@.len(),
                n == periodnum,
                layer_cuts@ == input.cuts,
                first == n * layer.period.signals@.len(),
                last == (n + 1) * layer.period.signals@.len(),
                cuts@ == input.cuts.take(i as int).filter(cut_in_period(*layer, n)),
            decreases layer_cuts@.len() - i,
        {
            proof {
                filter_step(input.cuts, cut_in_period(*layer, n), i as int);
            }
            let cut = layer_cuts[i];
            if cut.track >= first && cut.track < last {
                cuts.push(cut);
            }
            i += 1;
        }
        assert(input.cuts.take(i as int) =~= input.cuts);

        // Filter assignments down to those in this period
        let layer_tops = &cell.top_assns[layer.index];
        let mut top_assns: Vec<AssignKey> = Vec::new();
        proof {
            filter_none(input.tops, top_in_period(*layer, n));
            filter_none(layer_tops@, cell.top_key_in_period(*layer, n));
            assert(cell.lookup(top_assns@) =~= input.tops.take(0).filter(top_in_period(*layer, n)));
        }
        i = 0;
        while i < layer_tops.len()
            invariant
                i <= layer_tops@.len(),
                n == periodnum,
                input.tops == cell.lookup(layer_tops@),
                self@.input_ready(input, *layer, n),
                first == n * layer.period.signals@.len(),
                last == (n + 1) * layer.period.signals@.len(),
                cell.lookup(top_assns@) == input.tops.take(i as int).filter(
                    top_in_period(*layer, n),
                ),
                top_assns@ == layer_tops@.take(i as int).filter(
                    cell.top_key_in_period(*layer, n),
                ),
            decreases layer_tops@.len() - i,
        {
            proof {
                filter_step(input.tops, top_in_period(*layer, n), i as int);
                filter_step(layer_tops@, cell.top_key_in_period(*layer, n), i as int);
            }
            let k = layer_tops[i];
            assert(input.tops[i as int] is Some);
            let assn: &ValidAssign = match cell.assignments.get(k) {
                Some(assn) => assn,
                None => unreached(),
            };
            if assn.top.track >= first && assn.top.track < last {
                let ghost before = top_assns@;
                top_assns.push(k);
                assert(cell.lookup(top_assns@) =~= cell.lookup(before).push(Some(*assn)));
            }
            i += 1;
        }
        assert(input.tops.take(i as int) =~= input.tops);
        assert(layer_tops@.take(i as int) =~= layer_tops@);

        let layer_bots = &cell.bot_assns[layer.index];
        let mut bot_assns: Vec<AssignKey> = Vec::new();
        proof {
            filter_none(input.bots, bot_in_period(*layer, n));
            filter_none(layer_bots@, cell.bot_key_in_period(*layer, n));
            assert(cell.lookup(bot_assns@) =~= input.bots.take(0).filter(bot_in_period(*layer, n)));
        }
        i = 0;
        while i < layer_bots.len()
            invariant
                i <= layer_bots@.len(),
                n == periodnum,
                input.bots == cell.lookup(layer_bots@),
                self@.input_ready(input, *layer, n),
                first == n * layer.period.signals@.len(),
                last == (n + 1) * layer.period.signals@.len(),
                cell.lookup(bot_assns@) == input.bots.take(i as int).filter(
                    bot_in_period(*layer, n),
                ),
                bot_assns@ == layer_bots@.take(i as int).filter(
                    cell.bot_key_in_period(*layer, n),
                ),
            decreases layer_bots@.len() - i,
        {
            proof {
                filter_step(input.bots, bot_in_period(*layer, n), i as int);
                filter_step(layer_bots@, cell.bot_key_in_period(*layer, n), i as int);
            }
            let k = layer_bots[i];
            assert(input.bots[i as int] is Some);
            let assn: &ValidAssign = match cell.assignments.get(k) {
                Some(assn) => assn,
                None => unreached(),
            };
            if assn.bot.track >= first && assn.bot.track < last {
                let ghost before = bot_assns@;
                bot_assns.push(k);
                assert(cell.lookup(bot_assns@) =~= cell.lookup(before).push(Some(*assn)));
            }
            i += 1;
        }
        assert(input.bots.take(i as int) =~= input.bots);
        assert(layer_bots@.take(i as int) =~= layer_bots@);

        TempPeriod { periodnum, cell, layer: temp_layer, blockages, cuts, top_assns, bot_assns }
    }

    /// Boolean indication of whether `inst` intersects `layer` at `periodnum`
    pub fn instance_intersects(
        &self,
        inst: &TempInstance,
        layer: &ValidMetalLayer,
        periodnum: usize,
    ) -> (b: bool)
        requires
            self@.intersects_ready(inst.placed(), *layer),
        ensures
            b == self@.intersects(inst.placed(), *layer, periodnum as int),
    {
        // Grab the instance's [DbUnits] span, in the layer's periodic direction
        let dir = layer.spec.dir.other();
        let inst_min = self.convert_to_db_units(inst.inst.loc.get(dir)).0 as i128;
        let inst_max = inst_min + self.convert_to_db_units(inst.def.outline().max(dir)).0 as i128;
        // And return the boolean intersection. "Touching" edge-to-edge is *not* considered an intersection.
        let start = scale(layer.pitch, periodnum);
        assert(layer.period_start(periodnum + 1) == start + layer.pitch.0) by {
            vstd::arithmetic::mul::lemma_mul_is_distributive_add(
                layer.pitch.0 as int,
                periodnum as int,
                1,
            );
        }
        inst_max > start && inst_min < start + layer.pitch.0 as i128
    }

    /// Convert any [`UnitSpeced`]-convertible distances into [`DbUnits`]
    pub fn convert_to_db_units<T: Into<UnitSpeced>>(&self, pt: T) -> (u: DbUnits)
        requires
            T::obeys_into_spec(),
            self@.db_ready(pt.into_spec()),
        ensures
            u.0 == self@.db(pt.into_spec()),
    {
        let pt: UnitSpeced = pt.into();
        match pt {
            // Return as-is
            UnitSpeced::DbUnits(u) => u,
            // Multiply by the primitive pitch in `pt`s direction
            UnitSpeced::PrimPitches(p) => {
                let pitch = self.stack.prim.pitches.get(p.dir);
                DbUnits(p.num * pitch.0)
            },
            // LayerPitches are always in the layer's "periodic" dimension, and not converted here
            UnitSpeced::LayerPitches(_) => unreached(),
        }
    }

    /// Convert an [`Xy`] into a [`raw::Point`]
    pub fn convert_xy<T: Copy + Into<UnitSpeced>>(&self, xy: &Xy<T>) -> (p: Point)
        requires
            T::obeys_into_spec(),
            self@.db_ready(xy.x.into_spec()),
            self@.db_ready(xy.y.into_spec()),
        ensures
            p.deep_view() == (self@.db(xy.x.into_spec()), self@.db(xy.y.into_spec())),
    {
        let x = self.convert_to_db_units(xy.x);
        let y = self.convert_to_db_units(xy.y);
        self.convert_point(x, y)
    }

    /// Convert a two-tuple of [`DbUnits`] into a [`raw::Point`]
    pub fn convert_point(&self, x: DbUnits, y: DbUnits) -> (p: Point)
        ensures
            p == (Point { x: x.0, y: y.0 }),
    {
        Point::new(x.0, y.0)
    }

    /// Error creation helper
    pub fn err<T>(&self, msg: &str) -> (r: LayoutResult<T>)
        ensures
            r matches Err(e) && e@ == ErrorView::Export(msg@),
    {
        Err(LayoutError::Export(msg.to_owned()))
    }

    /// Error creation helper
    /// Unwrap the [`Option`] `opt` if it is [`Some`], and return our error if not.
    pub fn unwrap<T>(&self, opt: Option<T>, msg: &str) -> (r: LayoutResult<T>)
        ensures
            match opt {
                Some(val) => r == Ok::<T, LayoutError>(val),
                None => r matches Err(e) && e@ == ErrorView::Export(msg@),
            },
    {
        match opt {
            Some(val) => Ok(val),
            None => self.err(msg),
        }
    }
}

} // verus!
