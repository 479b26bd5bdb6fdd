//! What each operation does, said of its arguments and its result.

use vstd::arithmetic::mul::lemma_mul_is_commutative;
use vstd::prelude::*;

use crate::abstrakt::Abstract;
use crate::cell::{Cell, CellRef, Instance, Library};
use crate::coords::{DbUnits, Dir, PrimPitches, Xy};
use crate::error::{ErrorView, LayoutError, LayoutResult};
use crate::failures::{
    cell_is_refused_as_it_should_be, cell_succeeds_exactly_if_all_fits, first_error_is_the_first,
    is_period, library_succeeds_exactly_if_its_cells_do, period_fails_as_it_should,
};
use crate::laws::{
    edit_does_not_fail, library_error_is_of_first_failing_cell, periods_fill_the_cell,
};
use crate::model::{
    accepted, blocked_region, bot_on_layer, convert_ready, converter, cut_in_period, in_period,
    on_layer, present, top_on_layer, Placed,
};
use crate::outline::Outline;
use crate::raw;
use crate::raw::{LayerKey, LayerPurpose, Point, Shape, ShapeView};
use crate::rawconv::RawConverter;
use crate::results::{
    abstract_comes_out, abstract_is, cell_comes_out, cell_is, cell_parts, converter_comes_out,
    converter_is, distance, library_comes_out, library_is, map_filter_map, outline_comes_out,
    outline_is, parts, period_comes_out, period_of_track, port_is, values, without_cell,
    PeriodParts,
};
use crate::slots::{assign_contents, lookup, AssignKey};
use crate::stack::{ValidMetalLayer, ValidStack};
use crate::temp::{all_placed, reaching, CellDef, TempCell, TempCellLayer, TempInstance, TempPeriod};
use crate::tracks::{first_covering_is_first, LayerPeriod, LayerPeriodView, Track, TrackView};
use crate::units::{
    apart, cut_needs_wire_on_every_unit, cut_takes_out_its_units, wire_at_distance, wire_on,
};
use crate::validate::{ValidAssign, ValidTrackLoc};

verus! {

/// Whether `e` is a failure with message `msg`.
pub open spec fn says(e: LayoutError, msg: Seq<char>) -> bool {
    e is Str && e->Str_0@ == msg
}

/// Whether `elem` is on layer `key`, for `purpose`, on net `net`.
pub open spec fn element_has(
    elem: raw::Element,
    key: LayerKey,
    purpose: LayerPurpose,
    net: Option<Seq<char>>,
) -> bool {
    &&& elem.layer == key
    &&& elem.purpose == purpose
    &&& net is Some <==> elem.net is Some
    &&& net is Some ==> elem.net->0@ == net->0
}

/// Whether `shape` is the rectangle with corners `p0` and `p1`.
pub open spec fn is_rect(shape: Shape, p0: (int, int), p1: (int, int)) -> bool {
    shape matches Shape::Rect { p0: q0, p1: q1 } && {
        &&& q0.x == p0.0 && q0.y == p0.1
        &&& q1.x == p1.0 && q1.y == p1.1
    }
}

/// The mathematical value of a shape on a layer holds what the shape does.
pub proof fn element_is_viewed_as_it_is(elem: raw::Element)
    ensures
        element_has(
            elem,
            elem.deep_view().layer,
            elem.deep_view().purpose,
            elem.deep_view().net,
        ),
        match elem.inner {
            Shape::Rect { p0, p1 } => elem.deep_view().inner == (ShapeView::Rect {
                p0: (p0.x as int, p0.y as int),
                p1: (p1.x as int, p1.y as int),
            }),
            Shape::Poly { pts } => elem.deep_view().inner matches ShapeView::Poly { pts: q }
                && q.len() == pts@.len() && forall|i: int|
                0 <= i < q.len() ==> #[trigger] q[i] == (pts@[i].x as int, pts@[i].y as int),
        },
{
}

/// The mathematical value of a cell holds what the cell does.
pub proof fn cell_is_viewed_as_it_is(cell: raw::Cell, i: int)
    ensures
        cell.deep_view().name == cell.name@,
        cell.deep_view().elems.len() == cell.elems@.len(),
        cell.deep_view().insts.len() == cell.insts@.len(),
        0 <= i < cell.elems@.len() ==> cell.deep_view().elems[i] == cell.elems@[i].deep_view(),
        0 <= i < cell.insts@.len() ==> ({
            let (inst, out) = (cell.insts@[i], cell.deep_view().insts[i]);
            &&& out.inst_name == inst.inst_name@
            &&& out.cell_name == inst.cell_name@
            &&& out.cell == inst.cell
            &&& out.p0 == (inst.p0.x as int, inst.p0.y as int)
            &&& out.reflect == inst.reflect
            &&& out.angle == inst.angle
        }),
{
}

/// The mathematical value of a library holds what the library does.
pub proof fn library_is_viewed_as_it_is(lib: raw::Library, i: int)
    ensures
        lib.deep_view().name == lib.name@,
        lib.deep_view().units == lib.units,
        lib.deep_view().layers == lib.layers.layers@,
        lib.deep_view().cells.len() == lib.cells@.len(),
        0 <= i < lib.cells@.len() ==> lib.deep_view().cells[i] == lib.cells@[i].deep_view(),
{
}

/// The mathematical value of a track holds what the track does.
pub proof fn track_is_viewed_as_it_is(track: Track, i: int)
    ensures
        track.deep_view().dir == track.dir,
        track.deep_view().start == track.start.0,
        track.deep_view().width == track.width.0,
        track.deep_view().segments.len() == track.segments@.len(),
        0 <= i < track.segments@.len() ==> ({
            let (seg, out) = (track.segments@[i], track.deep_view().segments[i]);
            &&& out.start == seg.start.0
            &&& out.stop == seg.stop.0
            &&& out.net is Some <==> seg.net is Some
            &&& seg.net is Some ==> out.net->0 == seg.net->0@
        }),
{
}

/// [`RawConverter::convert`] hands on the error of the stack. It fails if a metal layer or the
/// boundary has no raw layer, in that order. Otherwise what it returns is the library.
pub proof fn convert_returns_the_library(
    lib: Library,
    stack: LayoutResult<ValidStack>,
    r: LayoutResult<raw::Library>,
)
    requires
        convert_ready(lib, stack),
        call_ensures(RawConverter::convert, (lib, stack), r),
    ensures
        match stack {
            Err(e) => r matches Err(f) && f@ == e@,
            Ok(stack) => {
                let metals = forall|i: int|
                    0 <= i < stack.metals@.len() ==> (#[trigger] stack.metals@[i]).spec.raw is Some;
                &&& !metals ==> r is Err && says(
                    r->Err_0,
                    "Error exporting: no raw layer defined"@,
                )
                &&& metals && stack.boundary_layer is None ==> r is Err && says(
                    r->Err_0,
                    "Cannot Convert Abstract to Raw without Boundary Layer"@,
                )
                &&& metals && stack.boundary_layer is Some ==> (r is Ok <==> forall|i: int|
                    0 <= i < lib.cells@.len() ==> converter(lib, stack).cell_outcome(
                        #[trigger] lib.cells@[i],
                    ) is Ok)
                &&& r matches Ok(out) ==> {
                    let c = converter(lib, stack);
                    &&& converter_is(lib, stack, c)
                    &&& library_is(c, out.deep_view())
                    &&& out.name@ == lib.name@
                    &&& out.units == stack.units
                    &&& out.layers.layers@ == c.layers
                    &&& out.cells@.len() == lib.cells@.len() + without_cell(lib).len()
                }
            },
        },
{
    if stack is Ok {
        library_succeeds_exactly_if_its_cells_do(converter(lib, stack->Ok_0));
    }
    if stack is Ok && r is Ok {
        let c = converter(lib, stack->Ok_0);
        assert(stack->Ok_0.metals.len() == stack->Ok_0.metals@.len());
        converter_comes_out(lib, stack->Ok_0);
        library_comes_out(c);
    }
}

/// [`RawConverter::convert_layers`] gives each metal layer a key of its own that finds its raw
/// layer, and fails if one has none.
pub proof fn convert_layers_returns_the_layers(
    stack: &ValidStack,
    r: LayoutResult<(raw::Layers, Vec<LayerKey>)>,
)
    requires
        call_ensures(RawConverter::convert_layers, (stack,), r),
    ensures
        ({
            let n = stack.metals@.len();
            let metals = forall|i: int|
                0 <= i < n ==> (#[trigger] stack.metals@[i]).spec.raw is Some;
            &&& r is Ok <==> metals
            &&& r matches Err(e) ==> says(e, "Error exporting: no raw layer defined"@)
            &&& r matches Ok((layers, keys)) ==> {
                &&& layers.layers@.len() == n
                &&& keys@.len() == n
                &&& forall|i: int|
                    0 <= i < n ==> {
                        &&& (#[trigger] keys@[i]).index < n
                        &&& Some(layers.layers@[keys@[i].index as int]) == stack.metals@[i].spec.raw
                        &&& Some(layers.layers@[i]) == stack.metals@[i].spec.raw
                    }
                &&& forall|i: int, j: int| 0 <= i < j < n ==> keys@[i] != keys@[j]
            }
        }),
{
    if r is Ok {
        let keys = r->Ok_0.1;
        assert(stack.metals.len() == stack.metals@.len());
        assert forall|i: int| 0 <= i < stack.metals@.len() implies (#[trigger] keys@[i]).index == i
            && stack.metals@[i].spec.raw is Some by {
            assert(stack.metals@[i].spec.raw is Some);
        }
    }
}

/// [`RawConverter::convert_lib`] returns the library. If a cell cannot be converted, it returns the
/// error of the first that cannot.
pub proof fn convert_lib_returns_the_library(
    c: RawConverter,
    r: LayoutResult<raw::Library>,
    i: int,
)
    requires
        c@.lib_ready(),
        call_ensures(RawConverter::convert_lib, (c,), r),
    ensures
        r is Ok <==> forall|k: int|
            0 <= k < c.lib.cells@.len() ==> c@.cell_outcome(#[trigger] c.lib.cells@[k]) is Ok,
        0 <= i < c.lib.cells@.len() && c@.cell_outcome(c.lib.cells@[i]) is Err && (forall|k: int|
            0 <= k < i ==> c@.cell_outcome(#[trigger] c.lib.cells@[k]) is Ok) ==> r is Err
            && r->Err_0@ == c@.cell_outcome(c.lib.cells@[i])->Err_0,
        r matches Ok(out) ==> {
            &&& library_is(c@, out.deep_view())
            &&& out.name@ == c.lib.name@
            &&& out.units == c.stack.units
            &&& out.layers.layers@ == c.rawlayers.layers@
            &&& out.cells@.len() == c.lib.cells@.len() + without_cell(c.lib).len()
        },
{
    library_succeeds_exactly_if_its_cells_do(c@);
    if 0 <= i < c.lib.cells@.len() && c@.cell_outcome(c.lib.cells@[i]) is Err && (forall|k: int|
        0 <= k < i ==> c@.cell_outcome(#[trigger] c.lib.cells@[k]) is Ok) {
        library_error_is_of_first_failing_cell(c@, i);
    }
    if r is Ok {
        library_comes_out(c@);
    }
}

/// [`RawConverter::convert_cell`] returns the cell.
pub proof fn convert_cell_returns_the_cell(
    c: &RawConverter,
    cell: &Cell,
    r: LayoutResult<raw::Cell>,
)
    requires
        c@.cell_ready(*cell),
        call_ensures(RawConverter::convert_cell, (c, cell), r),
    ensures
        r matches Ok(out) ==> {
            &&& cell_is(c@, *cell, out.deep_view())
            &&& out.name@ == cell.name@
            &&& out.insts@.len() == cell.instances@.len()
            &&& forall|i: int|
                0 <= i < out.insts@.len() ==> {
                    let (inst, from) = (#[trigger] out.insts@[i], cell.instances@[i]);
                    &&& inst.inst_name@ == from.inst_name@
                    &&& inst.cell_name@ == from.cell_name@
                    &&& inst.cell == from.cell
                    &&& inst.p0.x == distance(c.stack, from.loc.x)
                    &&& inst.p0.y == distance(c.stack, from.loc.y)
                    &&& inst.reflect == from.reflect
                    &&& inst.angle == from.angle
                }
        },
{
    if r is Ok {
        let out = r->Ok_0;
        cell_comes_out(c@, *cell);
        assert forall|i: int| 0 <= i < out.insts@.len() implies {
            let (inst, from) = (#[trigger] out.insts@[i], cell.instances@[i]);
            &&& inst.inst_name@ == from.inst_name@
            &&& inst.cell_name@ == from.cell_name@
            &&& inst.cell == from.cell
            &&& inst.p0.x == distance(c.stack, from.loc.x)
            &&& inst.p0.y == distance(c.stack, from.loc.y)
            &&& inst.reflect == from.reflect
            &&& inst.angle == from.angle
        } by {
            assert(out.deep_view().insts[i] == out.insts@[i].deep_view());
        }
    }
}

/// [`RawConverter::convert_cell`] refuses an outline that is not a rectangle, an instance of
/// something that has only a name, and a cut or an assignment that was refused, in that order.
pub proof fn convert_cell_refuses(
    c: &RawConverter,
    cell: &Cell,
    r: LayoutResult<raw::Cell>,
    i: int,
)
    requires
        call_ensures(RawConverter::convert_cell, (c, cell), r),
    ensures
        ({
            let rectangular = cell.outline.x@.len() <= 1;
            let named = exists|k: int|
                0 <= k < cell.instances@.len() && (#[trigger] cell.instances@[k]).cell is Name;
            let (cuts, assigns) = (cell.cuts@, cell.assignments@);
            &&& !rectangular ==> r is Err && says(
                r->Err_0,
                "Non-rectangular outline; conversions not supported (yet)"@,
            )
            &&& rectangular && named ==> r is Err && says(r->Err_0, "FIXME?"@)
            &&& rectangular && !named && 0 <= i < cuts.len() && cuts[i] is Err && (forall|k: int|
                0 <= k < i ==> (#[trigger] cuts[k]) is Ok) ==> r is Err && r->Err_0@
                == cuts[i]->Err_0@
            &&& rectangular && !named && (forall|k: int|
                0 <= k < cuts.len() ==> (#[trigger] cuts[k]) is Ok) && 0 <= i < assigns.len()
                && assigns[i] is Err && (forall|k: int|
                0 <= k < i ==> (#[trigger] assigns[k]) is Ok) ==> r is Err && r->Err_0@
                == assigns[i]->Err_0@
        }),
{
    cell_is_refused_as_it_should_be(c@, *cell, i);
}

/// [`RawConverter::convert_cell`] succeeds, once nothing of a cell is refused, exactly if every
/// period of every layer that the cell uses can be made.
pub proof fn convert_cell_succeeds_exactly_if_all_fits(
    c: &RawConverter,
    cell: &Cell,
    r: LayoutResult<raw::Cell>,
)
    requires
        cell.outline.x@.len() <= 1,
        forall|k: int|
            0 <= k < cell.instances@.len() ==> !((#[trigger] cell.instances@[k]).cell is Name),
        forall|k: int| 0 <= k < cell.cuts@.len() ==> (#[trigger] cell.cuts@[k]) is Ok,
        forall|k: int| 0 <= k < cell.assignments@.len() ==> (#[trigger] cell.assignments@[k]) is Ok,
        distance(c.stack, cell.outline.x@[0]) > 0,
        distance(c.stack, cell.outline.y@[0]) > 0,
        c@.cell_ready(*cell),
        call_ensures(RawConverter::convert_cell, (c, cell), r),
    ensures
        r is Ok <==> forall|l: int, p: int|
            0 <= l < cell.top_layer && is_period(c@, *cell, l, p) ==> (#[trigger] cell_parts(
                c@,
                *cell,
                l,
                p,
            )).all_fits(),
{
    cell_succeeds_exactly_if_all_fits(c@, *cell);
}

/// [`RawConverter::convert_instance`] keeps everything of an instance but its location, which it
/// scales by the primitive pitches.
pub proof fn convert_instance_returns_the_instance(
    c: &RawConverter,
    inst: &Instance,
    r: LayoutResult<raw::Instance>,
)
    requires
        call_ensures(RawConverter::convert_instance, (c, inst), r),
    ensures
        r matches Ok(out) && {
            &&& out.inst_name@ == inst.inst_name@
            &&& out.cell_name@ == inst.cell_name@
            &&& out.cell == inst.cell
            &&& out.p0.x == distance(c.stack, inst.loc.x)
            &&& out.p0.y == distance(c.stack, inst.loc.y)
            &&& out.reflect == inst.reflect
            &&& out.angle == inst.angle
        },
{
}

/// Whether `keys` find `assigns`, one for each and in order.
pub open spec fn keys_find(cell: TempCell, keys: Seq<AssignKey>, assigns: Seq<ValidAssign>) -> bool {
    let contents = assign_contents(cell.assignments);
    &&& keys.len() == assigns.len()
    &&& forall|i: int|
        0 <= i < keys.len() ==> contents.contains_key(#[trigger] keys[i]) && contents[keys[i]]
            == assigns[i]
}

proof fn lookup_finds(cell: TempCell, keys: Seq<AssignKey>, assigns: Seq<ValidAssign>)
    requires
        lookup(assign_contents(cell.assignments), keys) == present(assigns),
    ensures
        keys_find(cell, keys, assigns),
{
    let found = lookup(assign_contents(cell.assignments), keys);
    assert(keys.len() == found.len());
    assert forall|i: int| 0 <= i < keys.len() implies assign_contents(
        cell.assignments,
    ).contains_key(#[trigger] keys[i]) && assign_contents(cell.assignments)[keys[i]] == assigns[i] by {
        assert(found[i] == present(assigns)[i]);
    }
}

/// [`RawConverter::temp_cell`] arranges what a cell holds by layer. It refuses what
/// [`RawConverter::convert_cell`] refuses, but for the outline.
pub proof fn temp_cell_arranges<'a>(
    c: &'a RawConverter,
    cell: &'a Cell,
    r: LayoutResult<TempCell<'a>>,
    i: int,
    l: int,
    layer: ValidMetalLayer,
)
    requires
        call_ensures(RawConverter::temp_cell, (c, cell), r),
        layer.index == l,
    ensures
        ({
            let named = exists|k: int|
                0 <= k < cell.instances@.len() && (#[trigger] cell.instances@[k]).cell is Name;
            let (cuts, assigns) = (cell.cuts@, cell.assignments@);
            let cuts_ok = forall|k: int| 0 <= k < cuts.len() ==> (#[trigger] cuts[k]) is Ok;
            let assigns_ok = forall|k: int|
                0 <= k < assigns.len() ==> (#[trigger] assigns[k]) is Ok;
            &&& named ==> r is Err && says(r->Err_0, "FIXME?"@)
            &&& !named && 0 <= i < cuts.len() && cuts[i] is Err && (forall|k: int|
                0 <= k < i ==> (#[trigger] cuts[k]) is Ok) ==> r is Err && r->Err_0@
                == cuts[i]->Err_0@
            &&& !named && cuts_ok && 0 <= i < assigns.len() && assigns[i] is Err && (forall|k: int|
                0 <= k < i ==> (#[trigger] assigns[k]) is Ok) ==> r is Err && r->Err_0@
                == assigns[i]->Err_0@
            &&& !named && cuts_ok && assigns_ok ==> r is Ok
            &&& r matches Ok(t) ==> {
                &&& *t.cell == *cell
                &&& *t.lib == c.lib
                &&& t.instances@.len() == cell.instances@.len()
                &&& 0 <= i < t.instances@.len() ==> {
                    let (inst, from) = (t.instances@[i], cell.instances@[i]);
                    &&& *inst.inst == from
                    &&& from.cell matches CellRef::Cell(k) ==> (inst.def matches CellDef::Cell(d)
                        && *d == c.lib.cells@[k.index as int])
                    &&& from.cell matches CellRef::Abstract(k) ==> (
                    inst.def matches CellDef::Abstract(d)
                        && *d == c.lib.abstracts@[k.index as int])
                }
                &&& t.cuts@.len() == cell.top_layer
                &&& t.top_assns@.len() == cell.top_layer
                &&& t.bot_assns@.len() == cell.top_layer
                &&& assign_contents(t.assignments).len() == assigns.len()
                &&& l < cell.top_layer ==> {
                    &&& t.cuts@[l]@ == values(cuts).filter(|cut: ValidTrackLoc| cut.layer == l)
                    &&& keys_find(
                        t,
                        t.top_assns@[l]@,
                        values(assigns).filter(|a: ValidAssign| a.top.layer == l),
                    )
                    &&& keys_find(
                        t,
                        t.bot_assns@[l]@,
                        values(assigns).filter(|a: ValidAssign| a.bot.layer == l),
                    )
                }
            }
        }),
{
    first_error_is_the_first(cell.cuts@, i);
    first_error_is_the_first(cell.assignments@, i);
    if r is Ok {
        let t = r->Ok_0;
        if l < cell.top_layer {
            let input = t.input(layer);
            assert(input == c@.cell_input(*cell, layer));
            assert(values(cell.cuts@) =~= accepted(cell.cuts@));
            assert(values(cell.assignments@) =~= accepted(cell.assignments@));
            let cuts = |cut: ValidTrackLoc| cut.layer == l;
            assert(cuts =~= on_layer(l));
            let tops = |a: ValidAssign| a.top.layer == l;
            assert(tops =~= top_on_layer(l));
            let bots = |a: ValidAssign| a.bot.layer == l;
            assert(bots =~= bot_on_layer(l));
            lookup_finds(t, t.top_assns@[l]@, values(cell.assignments@).filter(tops));
            lookup_finds(t, t.bot_assns@[l]@, values(cell.assignments@).filter(bots));
        }
    }
}

/// The outline of a definition.
pub open spec fn def_outline(def: CellDef) -> Outline {
    match def {
        CellDef::Cell(cell) => cell.outline,
        CellDef::Abstract(abs) => abs.outline,
    }
}

/// The number of metal layers of a definition.
pub open spec fn def_height(def: CellDef) -> int {
    match def {
        CellDef::Cell(cell) => cell.top_layer as int,
        CellDef::Abstract(abs) => abs.top_layer as int,
    }
}

/// Where an instance is in direction `dir`, and its size.
pub open spec fn placement(inst: TempInstance, dir: Dir) -> (PrimPitches, PrimPitches) {
    let outline = def_outline(inst.def);
    if dir is Horiz {
        (inst.inst.loc.x, outline.x@.first())
    } else {
        (inst.inst.loc.y, outline.y@.last())
    }
}

/// The direction across the tracks of a layer.
pub open spec fn across(layer: ValidMetalLayer) -> Dir {
    if layer.spec.dir is Horiz {
        Dir::Vert
    } else {
        Dir::Horiz
    }
}

/// Whether an instance overlaps period number `periodnum` of `layer`, across the tracks.
pub open spec fn overlaps(
    stack: ValidStack,
    inst: TempInstance,
    layer: ValidMetalLayer,
    periodnum: int,
) -> bool {
    let (loc, size) = placement(inst, across(layer));
    let from = distance(stack, loc);
    &&& from < layer.pitch.0 * periodnum + layer.pitch.0
    &&& layer.pitch.0 * periodnum < from + distance(stack, size)
}

/// [`RawConverter::instance_intersects`] returns whether an instance and a period have more in
/// common than an edge.
pub proof fn instance_intersects_returns_overlap(
    c: &RawConverter,
    inst: &TempInstance,
    layer: &ValidMetalLayer,
    periodnum: usize,
    r: bool,
)
    requires
        call_ensures(RawConverter::instance_intersects, (c, inst, layer, periodnum), r),
    ensures
        r == overlaps(c.stack, *inst, *layer, periodnum as int),
{
    assert(layer.pitch.0 * (periodnum + 1) == layer.pitch.0 * periodnum + layer.pitch.0)
        by (nonlinear_arith);
}

/// [`RawConverter::temp_cell_layer`] keeps the instances that come up to the layer. Its tracks run
/// over the whole cell, and its periods fill the cell.
pub proof fn temp_cell_layer_covers_the_cell<'a>(
    c: &RawConverter,
    temp_cell: &'a TempCell<'a>,
    layer: &'a ValidMetalLayer,
    t: TempCellLayer<'a>,
)
    requires
        c@.layer_ready(*layer, temp_cell.cell.outline),
        call_ensures(RawConverter::temp_cell_layer, (c, temp_cell, layer), t),
    ensures
        ({
            let outline = temp_cell.cell.outline;
            let (x, y) = (distance(c.stack, outline.x@[0]), distance(c.stack, outline.y@[0]));
            &&& *t.layer == *layer
            &&& *t.cell == *temp_cell
            &&& t.pitch == layer.pitch
            &&& t.instances@ == temp_cell.instances@.filter(
                |i: TempInstance<'a>| def_height(i.def) >= layer.index,
            )
            &&& layer.spec.dir is Horiz ==> t.span.0 == x && t.nperiods * layer.pitch.0 == y
            &&& layer.spec.dir is Vert ==> t.span.0 == y && t.nperiods * layer.pitch.0 == x
        }),
{
    let up = |i: TempInstance<'a>| def_height(i.def) >= layer.index;
    assert(up =~= reaching(layer.index as int));
    periods_fill_the_cell(c@, *layer, temp_cell.cell.outline);
    lemma_mul_is_commutative(layer.pitch.0 as int, t.nperiods as int);
}

/// [`RawConverter::temp_cell_layer_period`] keeps what is in the period: the instances that overlap
/// it, as the regions that they take up along the tracks, and the cuts and assignments on its
/// tracks.
pub proof fn temp_cell_layer_period_keeps_the_period<'a>(
    c: &RawConverter,
    temp_layer: &'a TempCellLayer<'a>,
    periodnum: usize,
    t: TempPeriod<'a>,
)
    requires
        c@.input_ready(temp_layer.input(), *temp_layer.layer, periodnum as int),
        call_ensures(RawConverter::temp_cell_layer_period, (c, temp_layer, periodnum), t),
    ensures
        ({
            let layer = *temp_layer.layer;
            let cell = *temp_layer.cell;
            let l = layer.index as int;
            let n = layer.period.signals@.len() as int;
            let contents = assign_contents(cell.assignments);
            let p = periodnum as int;
            &&& t.periodnum == periodnum
            &&& *t.cell == cell
            &&& *t.layer == *temp_layer
            &&& t.blockages@.map_values(
                |b: (PrimPitches, PrimPitches)| (b.0, b.1.dir, b.1.num as int),
            ) == temp_layer.instances@.filter(
                |i: TempInstance<'a>| overlaps(c.stack, i, layer, p),
            ).map_values(
                |i: TempInstance<'a>|
                    {
                        let (loc, size) = placement(i, layer.spec.dir);
                        (loc, loc.dir, loc.num + size.num)
                    },
            )
            &&& t.cuts@ == cell.cuts@[l]@.filter(
                |cut: ValidTrackLoc| n > 0 && cut.track as int / n == p,
            )
            &&& t.top_assns@ == cell.top_assns@[l]@.filter(
                |k: AssignKey| n > 0 && contents[k].top.track as int / n == p,
            )
            &&& t.bot_assns@ == cell.bot_assns@[l]@.filter(
                |k: AssignKey| n > 0 && contents[k].bot.track as int / n == p,
            )
        }),
{
    let layer = *temp_layer.layer;
    let cell = *temp_layer.cell;
    let n = layer.period.signals@.len() as int;
    let contents = assign_contents(cell.assignments);
    let p = periodnum as int;
    let insts = temp_layer.instances@;
    let dir = layer.spec.dir;
    assert forall|track: int|
        (n > 0 && #[trigger] (track / n) == p) <==> in_period(layer, p, track) by {
        period_of_track(layer, p, track);
    }
    let cuts = |cut: ValidTrackLoc| n > 0 && cut.track as int / n == p;
    assert(cuts =~= cut_in_period(layer, p)) by {
        assert forall|cut: ValidTrackLoc| #[trigger] cuts(cut) == cut_in_period(layer, p)(cut) by {
            period_of_track(layer, p, cut.track as int);
        }
    }
    let tops = |k: AssignKey| n > 0 && contents[k].top.track as int / n == p;
    assert(tops =~= cell.top_key_in_period(layer, p)) by {
        assert forall|k: AssignKey| #[trigger] tops(k) == cell.top_key_in_period(layer, p)(k) by {
            period_of_track(layer, p, contents[k].top.track as int);
        }
    }
    let bots = |k: AssignKey| n > 0 && contents[k].bot.track as int / n == p;
    assert(bots =~= cell.bot_key_in_period(layer, p)) by {
        assert forall|k: AssignKey| #[trigger] bots(k) == cell.bot_key_in_period(layer, p)(k) by {
            period_of_track(layer, p, contents[k].bot.track as int);
        }
    }
    let place = |i: TempInstance<'a>| i.placed();
    let over = c@.overlapping(layer, p);
    let plain = |q: Placed|
        (
            blocked_region(q, dir).0,
            blocked_region(q, dir).1.dir,
            blocked_region(q, dir).1.num as int,
        );
    let keep = |i: TempInstance<'a>| overlaps(c.stack, i, layer, p);
    let value = |i: TempInstance<'a>|
        {
            let (loc, size) = placement(i, dir);
            (loc, loc.dir, loc.num + size.num)
        };
    let placed = all_placed(insts);
    assert(layer.pitch.0 * (p + 1) == layer.pitch.0 * p + layer.pitch.0) by (nonlinear_arith);
    assert forall|i: int| 0 <= i < insts.len() implies {
        &&& over(place(#[trigger] insts[i])) == keep(insts[i])
        &&& keep(insts[i]) ==> plain(place(insts[i])) == value(insts[i])
    } by {
        assert(placed[i] == insts[i].placed());
        assert(c@.blockage_ready(temp_layer.input().placed[i], layer, p));
    }
    map_filter_map(insts, place, over, plain, keep, value);
    assert(placed =~= insts.map_values(place));
    assert(t.input().blockages == t.blockages@);
    assert(t.blockages@.map_values(
        |b: (PrimPitches, PrimPitches)| (b.0, b.1.dir, b.1.num as int),
    ) =~= placed.filter(over).map_values(plain));
}

/// What a period is made from.
pub open spec fn temp_parts(c: RawConverter, t: TempPeriod) -> PeriodParts {
    let layer = *t.layer.layer;
    let contents = assign_contents(t.cell.assignments);
    PeriodParts {
        layer,
        key: c.layerkeys@[layer.index as int],
        via: c.stack.vias@[layer.index as int],
        periodnum: t.periodnum as int,
        span: t.layer.span.0 as int,
        blocked: t.blockages@.map_values(
            |b: (PrimPitches, PrimPitches)| (distance(c.stack, b.0), distance(c.stack, b.1)),
        ),
        cuts: t.cuts@,
        bots: t.bot_assns@.map_values(|k: AssignKey| contents[k]),
        tops: t.top_assns@.map_values(|k: AssignKey| contents[k]),
    }
}

/// [`RawConverter::convert_cell_layer_period`] returns the shapes of the period.
pub proof fn convert_cell_layer_period_returns_the_shapes(
    c: &RawConverter,
    t: &TempPeriod,
    r: LayoutResult<Vec<raw::Element>>,
)
    requires
        t.prepared(c@),
        call_ensures(RawConverter::convert_cell_layer_period, (c, t), r),
        r is Ok,
    ensures
        temp_parts(*c, *t).shapes_are(r->Ok_0.deep_view()),
{
    let layer = *t.layer.layer;
    let (p, span) = (t.periodnum as int, t.layer.span.0 as int);
    let input = t.input();
    let edits = c@.edits(layer, input);
    period_comes_out(c@, layer, p, span, input);
    let m = c@.carving(layer, input).len() as int;
    let nl = c@.landing(layer, input).len() as int;
    assert forall|i: int| 0 <= i < input.bots.len() implies (#[trigger] input.bots[i]) is Some by {
        edit_does_not_fail(layer.layer_period(p, span), edits, m + i);
        assert(edits[m + i] == c@.bot_edit(layer, input.bots[i]));
    }
    assert forall|i: int| 0 <= i < input.tops.len() implies (#[trigger] input.tops[i]) is Some by {
        edit_does_not_fail(layer.layer_period(p, span), edits, nl + i);
        assert(edits[nl + i] == c@.top_edit(layer, input.tops[i]));
    }
    let parts = parts(c@, layer, p, span, input);
    let temp = temp_parts(*c, *t);
    assert forall|i: int| 0 <= i < parts.bots.len() implies parts.bots[i] == #[trigger] temp.bots[i] by {
        assert(input.bots[i] is Some);
    }
    assert forall|i: int| 0 <= i < parts.tops.len() implies parts.tops[i] == #[trigger] temp.tops[i] by {
        assert(input.tops[i] is Some);
    }
    assert(parts.bots =~= temp.bots);
    assert(parts.tops =~= temp.tops);
    assert(parts.blocked =~= temp.blocked);
}

/// [`RawConverter::convert_cell_layer_period`] succeeds exactly if there is room for the blocked
/// regions and the cuts, every key finds an assignment, and all of these can be made. If there is
/// no room, the error is that of a cut; otherwise it is that of the first assignment that cannot be
/// made, of those from below and then of those from above.
pub proof fn convert_cell_layer_period_fails_as_it_should(
    c: &RawConverter,
    t: &TempPeriod,
    r: LayoutResult<Vec<raw::Element>>,
    i: int,
)
    requires
        t.prepared(c@),
        t.cuts@.len() > 0 ==> t.layer.layer.period.signals@.len() > 0,
        call_ensures(RawConverter::convert_cell_layer_period, (c, t), r),
    ensures
        ({
            let s = temp_parts(*c, *t);
            let contents = assign_contents(t.cell.assignments);
            let (bots, tops) = (t.bot_assns@, t.top_assns@);
            let bots_fit = |n: int|
                forall|k: int|
                    0 <= k < n ==> contents.contains_key(#[trigger] bots[k]) && s.bot_fits(k);
            let tops_fit = |n: int|
                forall|k: int|
                    0 <= k < n ==> contents.contains_key(#[trigger] tops[k]) && s.top_fits(k);
            &&& r is Ok <==> s.room() && bots_fit(bots.len() as int) && tops_fit(tops.len() as int)
            &&& !s.room() ==> says(r->Err_0, "Cut Error: not a contiguous wire segment"@)
            &&& 0 <= i < bots.len() && s.room() && bots_fit(i) ==> {
                &&& !contents.contains_key(bots[i]) ==> says(
                    r->Err_0,
                    "Internal error: invalid assignment"@,
                )
                &&& contents.contains_key(bots[i]) && !s.wire_at(s.bots[i].bot) ==> says(
                    r->Err_0,
                    "COULDNT FIND SEGMENT"@,
                )
                &&& contents.contains_key(bots[i]) && s.wire_at(s.bots[i].bot) && s.via.raw is None
                    ==> says(r->Err_0, "Raw-Layout Layer Not Defined"@)
            }
            &&& 0 <= i < tops.len() && s.room() && bots_fit(bots.len() as int) && tops_fit(i) ==> {
                &&& !contents.contains_key(tops[i]) ==> says(
                    r->Err_0,
                    "Internal error: invalid assignment"@,
                )
                &&& contents.contains_key(tops[i]) && !s.top_fits(i) ==> says(
                    r->Err_0,
                    "Internal error: invalid segment"@,
                )
            }
        }),
{
    let layer = *t.layer.layer;
    let (p, span) = (t.periodnum as int, t.layer.span.0 as int);
    let input = t.input();
    let s = temp_parts(*c, *t);
    let q = parts(c@, layer, p, span, input);
    let contents = assign_contents(t.cell.assignments);
    let (bots, tops) = (t.bot_assns@, t.top_assns@);
    period_fails_as_it_should(c@, layer, p, span, input);
    assert(s.blocked =~= q.blocked);
    assert forall|signal: Option<int>, x: int| #[trigger] s.gone(signal, x) == q.gone(signal, x) by {
        if signal is Some {
            assert(s.cut_at(signal->0, x) == q.cut_at(signal->0, x)) by {
                if s.cut_at(signal->0, x) {
                    let k = choose|k: int|
                        {
                            &&& 0 <= k < s.cuts.len()
                            &&& (#[trigger] s.cuts[k]).track as int % s.nsig() == signal->0
                            &&& s.cuts[k].dist.0 - s.layer.spec.cutsize.0 as int / 2 <= x
                            &&& x < s.cuts[k].dist.0 + s.layer.spec.cutsize.0 as int / 2
                        };
                    assert(q.cuts[k].track as int % q.nsig() == signal->0);
                }
                if q.cut_at(signal->0, x) {
                    let k = choose|k: int|
                        {
                            &&& 0 <= k < q.cuts.len()
                            &&& (#[trigger] q.cuts[k]).track as int % q.nsig() == signal->0
                            &&& q.cuts[k].dist.0 - q.layer.spec.cutsize.0 as int / 2 <= x
                            &&& x < q.cuts[k].dist.0 + q.layer.spec.cutsize.0 as int / 2
                        };
                    assert(s.cuts[k].track as int % s.nsig() == signal->0);
                }
            }
        }
    }
    assert forall|loc: ValidTrackLoc| #[trigger] s.wire_at(loc) == q.wire_at(loc) by {
        let signal = loc.track as int % s.nsig();
        assert(s.gone(Some(signal), loc.dist.0 - 1) == q.gone(Some(signal), loc.dist.0 - 1));
        assert(s.gone(Some(signal), loc.dist.0 as int) == q.gone(Some(signal), loc.dist.0 as int));
    }
    assert(s.room() == q.room());
    assert forall|k: int| 0 <= k < bots.len() implies {
        &&& (#[trigger] input.bots[k]) is Some <==> contents.contains_key(bots[k])
        &&& input.bots[k] is Some ==> q.bots[k] == s.bots[k] && q.bot_fits(k) == s.bot_fits(k)
    } by {
        if contents.contains_key(bots[k]) {
            assert(q.bots[k] == s.bots[k]);
        }
    }
    assert forall|k: int| 0 <= k < tops.len() implies {
        &&& (#[trigger] input.tops[k]) is Some <==> contents.contains_key(tops[k])
        &&& input.tops[k] is Some ==> q.tops[k] == s.tops[k] && q.top_fits(k) == s.top_fits(k)
    } by {
        if contents.contains_key(tops[k]) {
            assert(q.tops[k] == s.tops[k]);
        }
    }
    let bots_fit = |n: int|
        forall|k: int| 0 <= k < n ==> contents.contains_key(#[trigger] bots[k]) && s.bot_fits(k);
    let tops_fit = |n: int|
        forall|k: int| 0 <= k < n ==> contents.contains_key(#[trigger] tops[k]) && s.top_fits(k);
    assert forall|n: int| 0 <= n <= bots.len() implies (#[trigger] bots_fit(n)) == forall|k: int|
        0 <= k < n ==> (#[trigger] input.bots[k]) is Some && q.bot_fits(k) by {
        if bots_fit(n) {
            assert forall|k: int| 0 <= k < n implies (#[trigger] input.bots[k]) is Some
                && q.bot_fits(k) by {
                assert(contents.contains_key(bots[k]) && s.bot_fits(k));
            }
        } else {
            let k = choose|k: int|
                0 <= k < n && !(contents.contains_key(#[trigger] bots[k]) && s.bot_fits(k));
            assert(!(input.bots[k] is Some && q.bot_fits(k)));
        }
    }
    assert forall|n: int| 0 <= n <= tops.len() implies (#[trigger] tops_fit(n)) == forall|k: int|
        0 <= k < n ==> (#[trigger] input.tops[k]) is Some && q.top_fits(k) by {
        if tops_fit(n) {
            assert forall|k: int| 0 <= k < n implies (#[trigger] input.tops[k]) is Some
                && q.top_fits(k) by {
                assert(contents.contains_key(tops[k]) && s.top_fits(k));
            }
        } else {
            let k = choose|k: int|
                0 <= k < n && !(contents.contains_key(#[trigger] tops[k]) && s.top_fits(k));
            assert(!(input.tops[k] is Some && q.top_fits(k)));
        }
    }
    assert(bots_fit(bots.len() as int) == forall|k: int|
        0 <= k < input.bots.len() ==> (#[trigger] input.bots[k]) is Some && q.bot_fits(k));
    assert(tops_fit(tops.len() as int) == forall|k: int|
        0 <= k < input.tops.len() ==> (#[trigger] input.tops[k]) is Some && q.top_fits(k));
    if 0 <= i < bots.len() {
        assert(bots_fit(i) == forall|k: int|
            0 <= k < i ==> (#[trigger] input.bots[k]) is Some && q.bot_fits(k));
        assert(input.bots[i] is Some <==> contents.contains_key(bots[i]));
    }
    if 0 <= i < tops.len() {
        assert(tops_fit(i) == forall|k: int|
            0 <= k < i ==> (#[trigger] input.tops[k]) is Some && q.top_fits(k));
        assert(input.tops[i] is Some <==> contents.contains_key(tops[i]));
    }
}

/// [`RawConverter::convert_abstract`] returns the abstract.
pub proof fn convert_abstract_returns_the_abstract(
    c: &RawConverter,
    abs: &Abstract,
    r: LayoutResult<raw::Cell>,
)
    requires
        c@.abstract_ready(*abs),
        call_ensures(RawConverter::convert_abstract, (c, abs), r),
    ensures
        r matches Ok(out) && {
            &&& abstract_is(c@, *abs, out.deep_view())
            &&& out.name@ == abs.name@
            &&& out.insts@.len() == 0
            &&& out.elems@.len() == abs.ports@.len() + 1
            &&& forall|i: int|
                0 <= i < abs.ports@.len() ==> {
                    let elem = out.elems@[i + 1];
                    let layer = (#[trigger] abs.ports@[i]).kind->Edge_layer;
                    element_has(
                        elem,
                        c.layerkeys@[layer as int],
                        LayerPurpose::Drawing,
                        Some(abs.ports@[i].name@),
                    )
                }
        },
{
    abstract_comes_out(c@, *abs);
    let out = r->Ok_0;
    assert forall|i: int| 0 <= i < abs.ports@.len() implies {
        let elem = out.elems@[i + 1];
        let layer = (#[trigger] abs.ports@[i]).kind->Edge_layer;
        element_has(
            elem,
            c.layerkeys@[layer as int],
            LayerPurpose::Drawing,
            Some(abs.ports@[i].name@),
        )
    } by {
        assert(port_is(c@, *abs, abs.ports@[i], out.deep_view().elems[i + 1]));
        assert(out.deep_view().elems[i + 1] == out.elems@[i + 1].deep_view());
    }
}

/// [`RawConverter::track_span`] returns where a signal track starts and ends, counted over all
/// periods.
pub proof fn track_span_returns_the_track(
    c: &RawConverter,
    layer: usize,
    track: usize,
    r: LayoutResult<(DbUnits, DbUnits)>,
)
    requires
        call_ensures(RawConverter::track_span, (c, layer, track), r),
    ensures
        r matches Ok((start, stop)) && {
            let metals = c.stack.metals@[layer as int];
            let n = metals.period.signals@.len() as int;
            let spec = metals.period.signals@[track as int % n];
            &&& start.0 == metals.pitch.0 * (track as int / n) + spec.start.0
            &&& stop.0 == start.0 + spec.width.0
        },
{
}

/// [`RawConverter::convert_outline`] returns the outline of a cell.
pub proof fn convert_outline_returns_the_outline_of_a_cell(
    c: &RawConverter,
    cell: &Cell,
    r: LayoutResult<raw::Element>,
)
    requires
        call_ensures(RawConverter::convert_outline::<Cell>, (c, cell), r),
    ensures
        r matches Ok(elem) && outline_is(
            c.stack,
            c.boundary_layer,
            cell.outline,
            elem.deep_view(),
        ) && element_has(elem, c.boundary_layer, LayerPurpose::Outline, None),
{
    outline_comes_out(c@, cell.outline);
}

/// [`RawConverter::convert_outline`] returns the outline of an abstract.
pub proof fn convert_outline_returns_the_outline_of_an_abstract(
    c: &RawConverter,
    abs: &Abstract,
    r: LayoutResult<raw::Element>,
)
    requires
        call_ensures(RawConverter::convert_outline::<Abstract>, (c, abs), r),
    ensures
        r matches Ok(elem) && outline_is(
            c.stack,
            c.boundary_layer,
            abs.outline,
            elem.deep_view(),
        ) && element_has(elem, c.boundary_layer, LayerPurpose::Outline, None),
{
    outline_comes_out(c@, abs.outline);
}

/// [`RawConverter::convert_track`] returns a rectangle for each wire: as long as the wire along the
/// direction of the track, and as wide as the track across it.
pub proof fn convert_track_returns_the_wires(
    c: &RawConverter,
    track: &Track,
    layer: &ValidMetalLayer,
    r: LayoutResult<Vec<raw::Element>>,
    i: int,
)
    requires
        call_ensures(RawConverter::convert_track, (c, track, layer), r),
    ensures
        r matches Ok(elems) && {
            &&& elems@.len() == track.segments@.len()
            &&& 0 <= i < elems@.len() ==> {
                let (elem, seg) = (elems@[i], track.segments@[i]);
                let (start, stop) = (track.start.0 as int, track.start.0 + track.width.0);
                &&& elem.layer == c.layerkeys@[layer.index as int]
                &&& elem.purpose is Drawing
                &&& elem.net.deep_view() == seg.net.deep_view()
                &&& track.dir is Horiz ==> is_rect(
                    elem.inner,
                    (seg.start.0 as int, start),
                    (seg.stop.0 as int, stop),
                )
                &&& track.dir is Vert ==> is_rect(
                    elem.inner,
                    (start, seg.start.0 as int),
                    (stop, seg.stop.0 as int),
                )
            }
        },
{
    let elems = r->Ok_0;
    assert(elems.deep_view().len() == elems@.len());
    if 0 <= i < elems@.len() {
        assert(elems.deep_view()[i] == elems@[i].deep_view());
        assert(track.deep_view().segments[i] == track.segments@[i].deep_view());
    }
}

/// [`RawConverter::convert_to_db_units`] multiplies a number of primitive pitches by the pitch in
/// its direction.
pub proof fn convert_to_db_units_scales_pitches(c: &RawConverter, p: PrimPitches, r: DbUnits)
    requires
        call_ensures(RawConverter::convert_to_db_units::<PrimPitches>, (c, p), r),
    ensures
        p.dir is Horiz ==> r.0 == p.num * c.stack.prim.pitches.x.0,
        p.dir is Vert ==> r.0 == p.num * c.stack.prim.pitches.y.0,
{
}

/// [`RawConverter::convert_to_db_units`] keeps database units as they are.
pub proof fn convert_to_db_units_keeps_units(c: &RawConverter, u: DbUnits, r: DbUnits)
    requires
        call_ensures(RawConverter::convert_to_db_units::<DbUnits>, (c, u), r),
    ensures
        r == u,
{
}

/// [`RawConverter::convert_xy`] converts each component.
pub proof fn convert_xy_scales_both(c: &RawConverter, xy: &Xy<PrimPitches>, r: Point)
    requires
        call_ensures(RawConverter::convert_xy::<PrimPitches>, (c, xy), r),
    ensures
        r.x == distance(c.stack, xy.x),
        r.y == distance(c.stack, xy.y),
{
}

/// [`RawConverter::convert_xy`] keeps components in database units as they are.
pub proof fn convert_xy_keeps_units(c: &RawConverter, xy: &Xy<DbUnits>, r: Point)
    requires
        call_ensures(RawConverter::convert_xy::<DbUnits>, (c, xy), r),
    ensures
        r.x == xy.x.0,
        r.y == xy.y.0,
{
}

/// [`RawConverter::convert_point`] puts two distances together.
pub proof fn convert_point_returns_the_point(c: &RawConverter, x: DbUnits, y: DbUnits, r: Point)
    requires
        call_ensures(RawConverter::convert_point, (c, x, y), r),
    ensures
        r.x == x.0,
        r.y == y.0,
{
}

/// [`RawConverter::err`] is an export error with the message that it is given.
pub proof fn err_returns_the_message<T>(c: &RawConverter, msg: &str, r: LayoutResult<T>)
    requires
        call_ensures(RawConverter::err::<T>, (c, msg), r),
    ensures
        r matches Err(LayoutError::Export(s)) && s@ == msg@,
{
}

/// [`RawConverter::unwrap`] returns the value that it is given, or else an export error with the
/// message.
pub proof fn unwrap_returns_the_value<T>(
    c: &RawConverter,
    opt: Option<T>,
    msg: &str,
    r: LayoutResult<T>,
)
    requires
        call_ensures(RawConverter::unwrap::<T>, (c, opt, msg), r),
    ensures
        opt is Some ==> r is Ok && r->Ok_0 == opt->0,
        opt is None ==> (r matches Err(LayoutError::Export(s)) && s@ == msg@),
{
}

/// [`LayoutError::msg`] is a failure with the message that it is given.
pub proof fn msg_returns_the_message(msg: &str, r: LayoutError)
    requires
        call_ensures(LayoutError::msg, (msg,), r),
    ensures
        says(r, msg@),
{
}

/// [`ValidMetalLayer::to_layer_period`] lays out a track for each track of the period, with one
/// wire from 0 to the span.
pub proof fn to_layer_period_returns_the_tracks(
    layer: &ValidMetalLayer,
    index: usize,
    span: DbUnits,
    r: LayerPeriod,
    k: int,
)
    requires
        call_ensures(ValidMetalLayer::to_layer_period, (layer, index, span), r),
    ensures
        r.rails@.len() == layer.period.rails@.len(),
        r.signals@.len() == layer.period.signals@.len(),
        0 <= k < r.rails@.len() ==> ({
            let (track, spec) = (r.rails@[k], layer.period.rails@[k]);
            &&& track.dir == layer.spec.dir
            &&& track.start.0 == layer.pitch.0 * index + spec.start.0
            &&& track.width == spec.width
            &&& track.segments@.len() == 1
            &&& track.segments@[0].start.0 == 0
            &&& track.segments@[0].stop == span
            &&& track.segments@[0].net.deep_view() == spec.net.deep_view()
        }),
        0 <= k < r.signals@.len() ==> ({
            let (track, spec) = (r.signals@[k], layer.period.signals@[k]);
            &&& track.dir == layer.spec.dir
            &&& track.start.0 == layer.pitch.0 * index + spec.start.0
            &&& track.width == spec.width
            &&& track.segments@.len() == 1
            &&& track.segments@[0].start.0 == 0
            &&& track.segments@[0].stop == span
            &&& track.segments@[0].net.deep_view() == spec.net.deep_view()
        }),
{
    assert(r.deep_view().rails.len() == r.rails@.len());
    assert(r.deep_view().signals.len() == r.signals@.len());
    if 0 <= k < r.rails@.len() {
        assert(r.deep_view().rails[k] == r.rails@[k].deep_view());
        assert(r.rails@[k].deep_view().segments.len() == r.rails@[k].segments@.len());
        assert(r.rails@[k].deep_view().segments[0] == r.rails@[k].segments@[0].deep_view());
    }
    if 0 <= k < r.signals@.len() {
        assert(r.deep_view().signals[k] == r.signals@[k].deep_view());
        assert(r.signals@[k].deep_view().segments.len() == r.signals@[k].segments@.len());
        assert(r.signals@[k].deep_view().segments[0] == r.signals@[k].segments@[0].deep_view());
    }
}

/// [`ValidMetalLayer::span`] returns where a signal track starts and ends, counted over all periods.
pub proof fn span_returns_the_track(
    layer: &ValidMetalLayer,
    idx: usize,
    r: (DbUnits, DbUnits),
)
    requires
        call_ensures(ValidMetalLayer::span, (layer, idx), r),
    ensures
        ({
            let n = layer.period.signals@.len() as int;
            let spec = layer.period.signals@[idx as int % n];
            &&& r.0.0 == layer.pitch.0 * (idx as int / n) + spec.start.0
            &&& r.1.0 == r.0.0 + spec.width.0
        }),
{
}

/// [`Track::segment_at`] returns the first wire at a distance along the track.
pub proof fn segment_at_returns_the_wire(track: &Track, dist: DbUnits, r: Option<usize>, k: int)
    requires
        call_ensures(Track::segment_at, (track, dist), r),
    ensures
        ({
            let at = |i: int|
                track.segments@[i].start.0 <= dist.0 && dist.0 <= track.segments@[i].stop.0;
            &&& r matches Some(i) ==> i < track.segments@.len() && at(i as int) && (0 <= k < i
                ==> !at(k))
            &&& r is None && 0 <= k < track.segments@.len() ==> !at(k)
        }),
{
    let segs = track.deep_view().segments;
    first_covering_is_first(segs, dist.0 as int, dist.0 as int, 0);
    assert(segs.len() == track.segments@.len());
    if 0 <= k < segs.len() {
        assert(segs[k] == track.segments@[k].deep_view());
    }
    if r is Some {
        assert(segs[r->0 as int] == track.segments@[r->0 as int].deep_view());
    }
}

/// A cut leaves everything of a track as it is but its wires. It succeeds exactly if its region has
/// a length and lies on wire all over; it then takes out its region, and nothing else.
pub proof fn cut_takes_out_its_region(track: TrackView, start: int, stop: int)
    requires
        apart(track.segments),
    ensures
        track.cut(start, stop) is Some <==> start < stop && forall|x: int|
            start <= x < stop ==> #[trigger] wire_on(track.segments, x),
        track.cut(start, stop) matches Some(after) ==> {
            &&& after.dir == track.dir
            &&& after.start == track.start
            &&& after.width == track.width
            &&& apart(after.segments)
            &&& forall|x: int| #[trigger]
                wire_on(after.segments, x) <==> wire_on(track.segments, x) && !(start <= x < stop)
        },
{
    cut_needs_wire_on_every_unit(track.segments, start, stop);
    if track.cut(start, stop) is Some {
        cut_takes_out_its_units(track.segments, start, stop);
    }
}

/// An assignment leaves everything of a track as it is but the net of one wire, the one at its
/// distance along the track. It succeeds exactly if there is one.
pub proof fn assign_sets_the_net_of_one_wire(
    track: TrackView,
    dist: int,
    net: Seq<char>,
    k: int,
)
    requires
        apart(track.segments),
    ensures
        0 <= k < track.segments.len() && track.segments[k].start <= dist <= track.segments[k].stop
            ==> track.assign(dist, net) is Some,
        track.assign(dist, net) matches Some(after) ==> {
            &&& after.dir == track.dir
            &&& after.start == track.start
            &&& after.width == track.width
            &&& after.segments.len() == track.segments.len()
            &&& 0 <= k < track.segments.len() ==> {
                let (seg, old) = (after.segments[k], track.segments[k]);
                &&& seg.start == old.start
                &&& seg.stop == old.stop
                &&& seg.net == if old.start <= dist <= old.stop {
                    Some(net)
                } else {
                    old.net
                }
            }
        },
        (forall|i: int|
            0 <= i < track.segments.len() ==> !((#[trigger] track.segments[i]).start <= dist
                <= track.segments[i].stop)) ==> track.assign(dist, net) is None,
{
    let segs = track.segments;
    first_covering_is_first(segs, dist, dist, 0);
    if 0 <= k < segs.len() && segs[k].start <= dist <= segs[k].stop {
        wire_at_distance(segs, dist, k);
    }
}

/// [`Outline::max`] returns the first `x`, or the last `y`.
pub proof fn max_returns_the_extent(outline: &Outline, dir: Dir, r: PrimPitches)
    requires
        call_ensures(Outline::max, (outline, dir), r),
    ensures
        dir is Horiz ==> r == outline.x@.first(),
        dir is Vert ==> r == outline.y@.last(),
{
}

/// [`Dir::other`] returns the other direction.
pub proof fn other_returns_the_other(dir: Dir, r: Dir)
    requires
        call_ensures(Dir::other, (dir,), r),
    ensures
        r is Horiz <==> dir is Vert,
{
}

/// [`Xy::get`] returns the component in a direction.
pub proof fn get_returns_the_component(xy: &Xy<DbUnits>, dir: Dir, r: DbUnits)
    requires
        call_ensures(Xy::<DbUnits>::get, (xy, dir), r),
    ensures
        dir is Horiz ==> r == xy.x,
        dir is Vert ==> r == xy.y,
{
}

/// [`Xy::transpose`] exchanges the components.
pub proof fn transpose_exchanges_components(xy: &Xy<DbUnits>, r: Xy<DbUnits>)
    requires
        call_ensures(Xy::<DbUnits>::transpose, (xy,), r),
    ensures
        r.x == xy.y,
        r.y == xy.x,
{
}

/// [`Xy::new`] puts two components together.
pub proof fn new_returns_the_pair(x: DbUnits, y: DbUnits, r: Xy<DbUnits>)
    requires
        call_ensures(Xy::<DbUnits>::new, (x, y), r),
    ensures
        r.x == x,
        r.y == y,
{
}

/// A cut through a period cuts every track of it, and succeeds exactly if each can be cut.
pub proof fn cut_goes_through_every_track(p: LayerPeriodView, start: int, stop: int, k: int)
    ensures
        p.cut(start, stop) is Some <==> {
            &&& forall|i: int|
                0 <= i < p.rails.len() ==> (#[trigger] p.rails[i]).cut(start, stop) is Some
            &&& forall|i: int|
                0 <= i < p.signals.len() ==> (#[trigger] p.signals[i]).cut(start, stop) is Some
        },
        p.cut(start, stop) matches Some(after) ==> {
            &&& after.rails.len() == p.rails.len()
            &&& after.signals.len() == p.signals.len()
            &&& 0 <= k < p.rails.len() ==> Some(after.rails[k]) == p.rails[k].cut(start, stop)
            &&& 0 <= k < p.signals.len() ==> Some(after.signals[k]) == p.signals[k].cut(start, stop)
        },
{
    if p.cut(start, stop) is Some {
        if 0 <= k < p.rails.len() {
            assert(p.rails[k].cut(start, stop) is Some);
        }
        if 0 <= k < p.signals.len() {
            assert(p.signals[k].cut(start, stop) is Some);
        }
    }
}

/// The mathematical value of an error holds what the error does.
pub proof fn error_is_viewed_as_it_is(e: LayoutError)
    ensures
        match e {
            LayoutError::Str(s) => e@ == ErrorView::Str(s@),
            LayoutError::Export(s) => e@ == ErrorView::Export(s@),
        },
{
}

} // verus!
